use vstd::prelude::*;
use vstd::string::StringExecFns;

use crate::ctrl::{DependencyId, ModuleIdentifier};
use crate::module_graph::{ExportsType, ModuleGraph};

verus! {

/// How a missing export of an ESM import is reported.
#[derive(Clone, Copy, Debug, PartialEq, Eq, Structural)]
pub enum ExportPresenceMode {
    /// Missing exports are not reported.
    Off,
    Warn,
    Auto,
    Error,
}

/// The parser options that decide the export presence mode.
#[derive(Debug, Clone)]
pub struct JavascriptParserOptions {
    pub import_exports_presence: Option<ExportPresenceMode>,
    pub exports_presence: Option<ExportPresenceMode>,
    pub strict_export_presence: Option<bool>,
}

/// A range of the source text.
#[derive(Clone, Copy, Debug, PartialEq, Eq, Structural)]
pub struct DependencyRange {
    pub start: u32,
    pub end: u32,
}

/// The kinds of dependency that this library deals with.
#[derive(Clone, Copy, Debug, PartialEq, Eq, Structural)]
pub enum DependencyType {
    EsmImportSpecifier,
}

#[derive(Clone, Copy, Debug, PartialEq, Eq, Structural)]
pub enum DependencyCategory {
    Esm,
}

/// Which template renders a dependency.
#[derive(Clone, Copy, Debug, PartialEq, Eq, Structural)]
pub enum DependencyTemplateType {
    Dependency(DependencyType),
}

/// Whether a change of a dependency affects the module that references
/// it.
#[derive(Clone, Copy, Debug, PartialEq, Eq, Structural)]
pub enum AffectType {
    True,
    False,
    Transitive,
}

/// Whether a connection is active.
#[derive(Clone, Copy, Debug, PartialEq, Eq, Structural)]
pub enum ConnectionState {
    Bool(bool),
    TransitiveOnly,
    CircularConnection,
}

/// An export that a module references, by its path of names.
#[derive(Debug, Clone)]
pub struct ReferencedExport {
    pub name: Vec<String>,
    pub can_mangle: bool,
}

impl ReferencedExport {
    pub fn new(name: Vec<String>, can_mangle: bool) -> (r: ReferencedExport)
        ensures
            r.name@ == name@,
            r.can_mangle == can_mangle,
    {
        ReferencedExport { name, can_mangle }
    }
}

/// A referenced export, either as a bare path of names or with its
/// properties.
#[derive(Debug, Clone)]
pub enum ExtendedReferencedExport {
    Array(Vec<String>),
    Export(ReferencedExport),
}

/// The value of a referenced export.
pub enum ReferencedExportView {
    Array(Seq<String>),
    Export(Seq<String>, bool),
}

impl View for ExtendedReferencedExport {
    type V = ReferencedExportView;

    open spec fn view(&self) -> ReferencedExportView {
        match self {
            ExtendedReferencedExport::Array(v) => ReferencedExportView::Array(v@),
            ExtendedReferencedExport::Export(e) => ReferencedExportView::Export(e.name@, e.can_mangle),
        }
    }
}

/// The values of a list of referenced exports.
pub open spec fn exports_view(v: Seq<ExtendedReferencedExport>) -> Seq<ReferencedExportView> {
    v.map_values(|x: ExtendedReferencedExport| x@)
}

/// The whole exports object is referenced.
pub open spec fn spec_exports_object_referenced() -> Seq<ReferencedExportView> {
    seq![ReferencedExportView::Array(Seq::<String>::empty())]
}

pub fn create_exports_object_referenced() -> (r: Vec<ExtendedReferencedExport>)
    ensures
        exports_view(r@) == spec_exports_object_referenced(),
{
    let mut r: Vec<ExtendedReferencedExport> = Vec::new();
    r.push(ExtendedReferencedExport::Array(Vec::new()));
    proof {
        assert(exports_view(r@) =~= spec_exports_object_referenced());
    }
    r
}

/// The exports referenced through the properties read in a
/// destructuring of the import, each below the path `ids` where there is
/// one; without such properties, the path itself, or else the whole
/// exports object.
pub open spec fn spec_destructuring(props: Option<Seq<String>>, ids: Option<Seq<String>>) -> Seq<ReferencedExportView> {
    match props {
        Some(p) => p.map_values(|prop: String| ReferencedExportView::Export(
            match ids {
                Some(v) => v.push(prop),
                None => seq![prop],
            },
            false,
        )),
        None => match ids {
            Some(v) => seq![ReferencedExportView::Array(v)],
            None => spec_exports_object_referenced(),
        },
    }
}

/// The export presence mode that the options ask for: the import option,
/// else the general one, else `Error` when strict presence is on and
/// `Auto` otherwise.
pub open spec fn spec_export_presence_mode(options: JavascriptParserOptions) -> ExportPresenceMode {
    match options.import_exports_presence {
        Some(m) => m,
        None => match options.exports_presence {
            Some(m) => m,
            None => if options.strict_export_presence == Some(true) {
                ExportPresenceMode::Error
            } else {
                ExportPresenceMode::Auto
            },
        },
    }
}

/// A copy of `v[start..end]`.
fn copy_names(v: &[String], start: usize, end: usize) -> (r: Vec<String>)
    requires
        start <= end <= v@.len(),
    ensures
        r@ == v@.subrange(start as int, end as int),
{
    let mut r: Vec<String> = Vec::new();
    let mut i = start;
    while i < end
        invariant
            start <= i <= end <= v@.len(),
            r@ == v@.subrange(start as int, i as int),
        decreases end - i,
    {
        r.push(v[i].clone());
        proof {
            assert(v@.subrange(start as int, i + 1) =~= v@.subrange(start as int, i as int).push(v@[i as int]));
        }
        i = i + 1;
    }
    r
}

/// How the expression that stands for the import in the output is built.
#[derive(Debug, Clone)]
pub enum ExportExprPlan {
    /// A reference to the concatenated module itself.
    ModuleReference { asi_safe: bool },
    /// A reference to the concatenated module, then an access of the
    /// properties `ids`.
    ModuleReferenceWithProperty { asi_safe: bool, ids: Vec<String> },
    /// A reference to the export at `ids` of the concatenated module.
    ModuleReferenceToIds { asi_safe: bool, ids: Vec<String>, call: bool, direct_import: bool },
    /// The import is applied, and the export at `ids` is read through the
    /// variable of the imported module, with default interop. `call_context`
    /// tells whether a call keeps the namespace object as its context (the
    /// import is not direct); `asi_safe_hint` whether the expression stands
    /// where a semicolon may be missing.
    ExportFromImport { ids: Vec<String>, call: bool, call_context: bool, asi_safe_hint: Option<bool> },
}

/// A change of the source text.
#[derive(Debug, Clone)]
pub enum SourceEdit {
    Insert { pos: u32, text: String },
    Replace { start: u32, end: u32, text: String },
}

/// The template that renders ESM import specifier dependencies.
#[derive(Clone, Copy, Debug, Default)]
pub struct ESMImportSpecifierDependencyTemplate;

impl ESMImportSpecifierDependencyTemplate {
    pub fn template_type() -> (r: DependencyTemplateType)
        ensures
            r == DependencyTemplateType::Dependency(DependencyType::EsmImportSpecifier),
    {
        DependencyTemplateType::Dependency(DependencyType::EsmImportSpecifier)
    }
}

/// The attributes of an import, such as `type: "json"` in
/// `import a from "./a.json" with { type: "json" }`, by key in source
/// order.
#[derive(Debug, Clone)]
pub struct ImportAttributes {
    pub entries: Vec<(String, String)>,
}

/// Which exports of the importing module use the import: those named
/// (each once), or all (`true`) or none (`false`).
#[derive(Debug, Clone)]
pub enum UsedByExports {
    Names(Vec<String>),
    Bool(bool),
}

/// An import of a named export from an ES module, such as `a` in
/// `import { a } from "m"` and every place where `a` is used.
#[derive(Debug, Clone)]
pub struct ESMImportSpecifierDependency {
    pub id: DependencyId,
    pub request: String,
    pub name: String,
    pub source_order: i32,
    pub shorthand: bool,
    pub asi_safe: bool,
    pub range: DependencyRange,
    pub ids: Vec<String>,
    pub call: bool,
    pub direct_import: bool,
    pub used_by_exports: Option<UsedByExports>,
    /// The properties read in a destructuring of the import, each once (a
    /// set, held as a list: the order in which a hash set is walked
    /// cannot be stated, so the list keeps the order of construction).
    pub referenced_properties_in_destructuring: Option<Vec<String>>,
    pub resource_identifier: String,
    pub export_presence_mode: ExportPresenceMode,
    pub attributes: Option<ImportAttributes>,
    pub namespace_object_as_context: bool,
}

impl ESMImportSpecifierDependency {
    /// The properties read in a destructuring of the import, if any.
    pub open spec fn props(&self) -> Option<Seq<String>> {
        match self.referenced_properties_in_destructuring {
            Some(p) => Some(p@),
            None => None,
        }
    }

    /// The path of export names that the import reads: the one that the
    /// module graph recorded for the dependency, else its own.
    pub open spec fn spec_ids(&self, mg: &ModuleGraph) -> Seq<String> {
        if mg.dep_meta_ids@.contains_key(self.id) {
            mg.dep_meta_ids@[self.id]@
        } else {
            self.ids@
        }
    }

    /// The graph records the module that holds the dependency, and knows
    /// that module.
    pub open spec fn parent_known(&self, mg: &ModuleGraph) -> bool {
        &&& mg.parent_modules@.contains_key(self.id)
        &&& mg.modules@.contains(mg.parent_modules@[self.id])
    }

    /// The exports that the import references.
    pub open spec fn spec_referenced_exports(&self, mg: &ModuleGraph) -> Seq<ReferencedExportView> {
        let ids = self.spec_ids(mg);
        if ids.len() == 0 {
            spec_destructuring(self.props(), None)
        } else {
            let default_first = ids[0]@ == "default"@;
            let et = mg.exports_types@[self.id];
            let default_export = default_first && (et is DefaultOnly || et is DefaultWithNamed);
            if default_export && ids.len() == 1 {
                spec_destructuring(self.props(), None)
            } else if default_first && et is Dynamic {
                spec_exports_object_referenced()
            } else {
                let ids2 = if default_export { ids.drop_first() } else { ids };
                let ns = default_export || self.namespace_object_as_context;
                if self.call && !self.direct_import && (ns || ids2.len() > 1) {
                    if ids2.len() == 1 {
                        spec_exports_object_referenced()
                    } else {
                        spec_destructuring(self.props(), Some(ids2.drop_last()))
                    }
                } else {
                    spec_destructuring(self.props(), Some(ids2))
                }
            }
        }
    }

    /// The module graph can answer what the import needs of it: where
    /// the path starts with `default`, the module that holds the
    /// dependency, and how the imported module exposes its exports.
    pub open spec fn graph_knows(&self, mg: &ModuleGraph) -> bool {
        let ids = self.spec_ids(mg);
        ids.len() > 0 && ids[0]@ == "default"@ ==> {
            &&& mg.parent_modules@.contains_key(self.id)
            &&& mg.exports_types@.contains_key(self.id)
        }
    }

    pub fn new(
        id: DependencyId,
        request: String,
        name: String,
        source_order: i32,
        shorthand: bool,
        asi_safe: bool,
        range: DependencyRange,
        ids: Vec<String>,
        call: bool,
        direct_import: bool,
        export_presence_mode: ExportPresenceMode,
        referenced_properties_in_destructuring: Option<Vec<String>>,
        attributes: Option<ImportAttributes>,
        resource_identifier: String,
    ) -> (r: ESMImportSpecifierDependency)
        requires
            referenced_properties_in_destructuring matches Some(p) ==> p@.no_duplicates(),
        ensures
            r.id == id,
            r.request == request,
            r.name == name,
            r.source_order == source_order,
            r.shorthand == shorthand,
            r.asi_safe == asi_safe,
            r.range == range,
            r.ids@ == ids@,
            r.call == call,
            r.direct_import == direct_import,
            r.export_presence_mode == export_presence_mode,
            r.props() == match referenced_properties_in_destructuring {
                Some(p) => Some(p@),
                None => None::<Seq<String>>,
            },
            r.attributes == attributes,
            r.resource_identifier == resource_identifier,
            r.used_by_exports is None,
            !r.namespace_object_as_context,
    {
        ESMImportSpecifierDependency {
            id,
            request,
            name,
            source_order,
            shorthand,
            asi_safe,
            range,
            ids,
            call,
            direct_import,
            used_by_exports: None,
            referenced_properties_in_destructuring,
            resource_identifier,
            export_presence_mode,
            attributes,
            namespace_object_as_context: false,
        }
    }

    pub fn get_ids<'a>(&'a self, mg: &'a ModuleGraph) -> (r: &'a [String])
        ensures
            r@ == self.spec_ids(mg),
    {
        match mg.dep_meta_ids.get(&self.id) {
            Some(ids) => ids.as_slice(),
            None => self.ids.as_slice(),
        }
    }

    /// The exports referenced through a destructuring of the import, below
    /// the path `ids` where one is given.
    pub fn get_referenced_exports_in_destructuring(&self, ids: Option<&[String]>) -> (r: Vec<ExtendedReferencedExport>)
        ensures
            exports_view(r@) == spec_destructuring(self.props(), match ids {
                Some(v) => Some(v@),
                None => None::<Seq<String>>,
            }),
    {
        let ghost ids_view = match ids {
            Some(v) => Some(v@),
            None => None::<Seq<String>>,
        };
        match &self.referenced_properties_in_destructuring {
            Some(props) => {
                let mut r: Vec<ExtendedReferencedExport> = Vec::new();
                let n = props.len();
                for i in 0..n
                    invariant
                        n == props@.len(),
                        self.props() == Some(props@),
                        r@.len() == i,
                        exports_view(r@) == spec_destructuring(Some(props@.take(i as int)), ids_view),
                        ids_view == match ids {
                            Some(v) => Some(v@),
                            None => None::<Seq<String>>,
                        },
                {
                    let prop = props[i].clone();
                    let name = match ids {
                        Some(v) => {
                            let mut value = copy_names(v, 0, v.len());
                            proof {
                                assert(v@.subrange(0, v@.len() as int) =~= v@);
                            }
                            value.push(prop);
                            value
                        },
                        None => {
                            let mut value: Vec<String> = Vec::new();
                            value.push(prop);
                            proof {
                                assert(value@ =~= seq![prop]);
                            }
                            value
                        },
                    };
                    assert(name@ == match ids_view {
                        Some(v) => v.push(props@[i as int]),
                        None => seq![props@[i as int]],
                    });
                    let ghost r0 = r@;
                    let ghost name_view = name@;
                    r.push(ExtendedReferencedExport::Export(ReferencedExport::new(name, false)));
                    proof {
                        let target = spec_destructuring(Some(props@.take(i + 1)), ids_view);
                        let before = spec_destructuring(Some(props@.take(i as int)), ids_view);
                        assert(props@.take(i + 1) =~= props@.take(i as int).push(props@[i as int]));
                        assert(r@[i as int]@ == ReferencedExportView::Export(name_view, false));
                        assert forall|j: int| 0 <= j < i + 1 implies #[trigger] exports_view(r@)[j] == target[j] by {
                            if j < i {
                                assert(r@[j] == r0[j]);
                                assert(exports_view(r0)[j] == before[j]);
                                assert(props@.take(i + 1)[j] == props@.take(i as int)[j]);
                            }
                        }
                        assert(exports_view(r@) =~= target);
                    }
                }
                proof {
                    assert(props@.take(n as int) =~= props@);
                }
                r
            },
            None => match ids {
                Some(v) => {
                    let mut r: Vec<ExtendedReferencedExport> = Vec::new();
                    let value = copy_names(v, 0, v.len());
                    proof {
                        assert(v@.subrange(0, v@.len() as int) =~= v@);
                    }
                    r.push(ExtendedReferencedExport::Array(value));
                    proof {
                        assert(exports_view(r@) =~= seq![ReferencedExportView::Array(v@)]);
                    }
                    r
                },
                None => create_exports_object_referenced(),
            },
        }
    }

    /// The exports that the import references.
    pub fn get_referenced_exports(&self, mg: &ModuleGraph) -> (r: Vec<ExtendedReferencedExport>)
        requires
            self.graph_knows(mg),
        ensures
            exports_view(r@) == self.spec_referenced_exports(mg),
    {
        let ids = self.get_ids(mg);
        if ids.len() == 0 {
            return self.get_referenced_exports_in_destructuring(None);
        }
        let mut namespace_object_as_context = self.namespace_object_as_context;
        let mut start: usize = 0;
        let default_name = String::from_str("default");
        if ids[0] == default_name {
            let exports_type = *mg.exports_types.get(&self.id).unwrap();
            match exports_type {
                ExportsType::DefaultOnly | ExportsType::DefaultWithNamed => {
                    if ids.len() == 1 {
                        return self.get_referenced_exports_in_destructuring(None);
                    }
                    start = 1;
                    namespace_object_as_context = true;
                },
                ExportsType::Dynamic => {
                    return create_exports_object_referenced();
                },
                _ => {},
            }
        }
        let mut end = ids.len();
        if self.call && !self.direct_import && (namespace_object_as_context || end - start > 1) {
            if end - start == 1 {
                return create_exports_object_referenced();
            }
            end = end - 1;
        }
        let path = copy_names(ids, start, end);
        proof {
            let s = self.spec_ids(mg);
            if start == 1 {
                assert(s.subrange(1, s.len() as int) =~= s.drop_first());
                assert(s.subrange(1, end as int) =~= s.drop_first().subrange(0, end - 1));
                if end < s.len() {
                    assert(s.drop_first().subrange(0, end - 1) =~= s.drop_first().drop_last());
                }
            } else {
                if end < s.len() {
                    assert(s.subrange(0, end as int) =~= s.drop_last());
                } else {
                    assert(s.subrange(0, end as int) =~= s);
                }
            }
        }
        self.get_referenced_exports_in_destructuring(Some(path.as_slice()))
    }

    pub fn create_export_presence_mode(options: &JavascriptParserOptions) -> (r: ExportPresenceMode)
        ensures
            r == spec_export_presence_mode(*options),
    {
        match options.import_exports_presence {
            Some(m) => m,
            None => match options.exports_presence {
                Some(m) => m,
                None => match options.strict_export_presence {
                    Some(true) => ExportPresenceMode::Error,
                    _ => ExportPresenceMode::Auto,
                },
            },
        }
    }
    /// Whether the module that the dependency imports is concatenated into
    /// the scope whose modules are `concatenated_modules`, where the
    /// rendering has such a scope.
    pub open spec fn spec_in_scope(&self, mg: &ModuleGraph, concatenated_modules: Option<Seq<ModuleIdentifier>>) -> bool {
        &&& concatenated_modules is Some
        &&& mg.connections@.contains_key(self.id)
        &&& concatenated_modules->0.contains(mg.connections@[self.id].module_identifier)
    }

    fn in_scope(&self, mg: &ModuleGraph, concatenated_modules: Option<&[ModuleIdentifier]>) -> (r: bool)
        ensures
            r == self.spec_in_scope(mg, match concatenated_modules {
                Some(s) => Some(s@),
                None => None::<Seq<ModuleIdentifier>>,
            }),
    {
        let scope = match concatenated_modules {
            Some(s) => s,
            None => return false,
        };
        let target = match mg.connections.get(&self.id) {
            Some(con) => con.module_identifier,
            None => return false,
        };
        assert(mg.connections@.contains_key(self.id) && mg.connections@[self.id].module_identifier == target);
        let mut i: usize = 0;
        while i < scope.len()
            invariant
                i <= scope@.len(),
                forall|j: int| 0 <= j < i ==> scope@[j] != target,
                concatenated_modules == Some(scope),
                mg.connections@.contains_key(self.id),
                mg.connections@[self.id].module_identifier == target,
            decreases scope@.len() - i,
        {
            if scope[i] == target {
                assert(scope@[i as int] == target);
                return true;
            }
            i = i + 1;
        }
        false
    }

    /// How the expression for the import is built, given whether the
    /// connection of the dependency is active and, where the rendering has
    /// a concatenation scope, the modules concatenated into it; none where
    /// nothing is rendered.
    pub fn render_plan(
        &self,
        mg: &ModuleGraph,
        is_target_active: bool,
        concatenated_modules: Option<&[ModuleIdentifier]>,
    ) -> (r: Option<ExportExprPlan>)
        ensures
            !is_target_active ==> r is None,
            is_target_active ==> r is Some,
            is_target_active && self.spec_in_scope(mg, match concatenated_modules { Some(s) => Some(s@), None => None::<Seq<ModuleIdentifier>> }) && self.spec_ids(mg).len() == 0 ==> r == Some(
                ExportExprPlan::ModuleReference { asi_safe: self.asi_safe },
            ),
            is_target_active && self.spec_in_scope(mg, match concatenated_modules { Some(s) => Some(s@), None => None::<Seq<ModuleIdentifier>> }) && self.spec_ids(mg).len() != 0
                && self.namespace_object_as_context && self.spec_ids(mg).len() == 1 ==> (r matches Some(
                ExportExprPlan::ModuleReferenceWithProperty { asi_safe, ids },
            ) && asi_safe == self.asi_safe && ids@ == self.spec_ids(mg)),
            is_target_active && self.spec_in_scope(mg, match concatenated_modules { Some(s) => Some(s@), None => None::<Seq<ModuleIdentifier>> }) && self.spec_ids(mg).len() != 0
                && !(self.namespace_object_as_context && self.spec_ids(mg).len() == 1) ==> (r matches Some(
                ExportExprPlan::ModuleReferenceToIds { asi_safe, ids, call, direct_import },
            ) && asi_safe == self.asi_safe && ids@ == self.spec_ids(mg) && call == self.call
                && direct_import == self.direct_import),
            is_target_active && !self.spec_in_scope(mg, match concatenated_modules { Some(s) => Some(s@), None => None::<Seq<ModuleIdentifier>> }) ==> (r matches Some(
                ExportExprPlan::ExportFromImport { ids, call, call_context, asi_safe_hint },
            ) && ids@ == self.spec_ids(mg) && call == self.call && call_context == !self.direct_import
                && asi_safe_hint == Some(self.shorthand || self.asi_safe)),
    {
        if !is_target_active {
            return None;
        }
        let ids = self.get_ids(mg);
        let copy = copy_names(ids, 0, ids.len());
        proof {
            assert(ids@.subrange(0, ids@.len() as int) =~= ids@);
        }
        if self.in_scope(mg, concatenated_modules) {
            if ids.len() == 0 {
                Some(ExportExprPlan::ModuleReference { asi_safe: self.asi_safe })
            } else if self.namespace_object_as_context && ids.len() == 1 {
                Some(ExportExprPlan::ModuleReferenceWithProperty { asi_safe: self.asi_safe, ids: copy })
            } else {
                Some(ExportExprPlan::ModuleReferenceToIds {
                    asi_safe: self.asi_safe,
                    ids: copy,
                    call: self.call,
                    direct_import: self.direct_import,
                })
            }
        } else {
            Some(ExportExprPlan::ExportFromImport {
                ids: copy,
                call: self.call,
                call_context: !self.direct_import,
                asi_safe_hint: Some(self.shorthand || self.asi_safe),
            })
        }
    }

    /// Where the expression for the import goes: after a shorthand
    /// property, as its value; otherwise in place of the import's range.
    pub fn export_edit(&self, export_expr: String) -> (r: SourceEdit)
        ensures
            self.shorthand ==> (r matches SourceEdit::Insert { pos, text } && pos == self.range.end
                && text@ == ": "@ + export_expr@),
            !self.shorthand ==> (r matches SourceEdit::Replace { start, end, text } && start == self.range.start
                && end == self.range.end && text@ == export_expr@),
    {
        if self.shorthand {
            let text = String::from_str(": ").concat(export_expr.as_str());
            SourceEdit::Insert { pos: self.range.end, text }
        } else {
            SourceEdit::Replace { start: self.range.start, end: self.range.end, text: export_expr }
        }
    }

    /// The note that a missing export's diagnostic carries: the local name
    /// of the import.
    pub fn imported_as(&self) -> (r: String)
        ensures
            r@ == "(imported as '"@ + self.name@ + "')"@,
    {
        let mut r = String::from_str("(imported as '");
        r.append(self.name.as_str());
        r.append("')");
        r
    }

    /// The same path of names as `get_ids`.
    pub fn _get_ids<'a>(&'a self, mg: &'a ModuleGraph) -> (r: &'a [String])
        ensures
            r@ == self.spec_ids(mg),
    {
        self.get_ids(mg)
    }

    /// Evaluating the imported module's side effects never depends on this
    /// dependency.
    pub fn get_module_evaluation_side_effects_state(&self) -> (r: ConnectionState)
        ensures
            r == ConnectionState::Bool(false),
    {
        ConnectionState::Bool(false)
    }

    /// Whether the import's missing exports are checked, and how: none
    /// where the graph knows no module that holds the dependency (no
    /// parent recorded, or a parent that is not among the graph's
    /// modules) or where `effective_export_presence` (the export presence
    /// that the mode yields for that module) says not to check; otherwise
    /// whether a missing export is an error, with the note that the
    /// diagnostic carries.
    pub fn linking_error_request(&self, mg: &ModuleGraph, effective_export_presence: Option<bool>) -> (r: Option<(bool, String)>)
        ensures
            !self.parent_known(mg) ==> r is None,
            self.parent_known(mg) ==> match effective_export_presence {
                None => r is None,
                Some(should_error) => r matches Some((e, note)) && e == should_error
                    && note@ == "(imported as '"@ + self.name@ + "')"@,
            },
    {
        let parent = match mg.parent_modules.get(&self.id) {
            Some(p) => *p,
            None => return None,
        };
        if !mg.modules.contains(&parent) {
            return None;
        }
        match effective_export_presence {
            Some(should_error) => Some((should_error, self.imported_as())),
            None => None,
        }
    }

    pub fn id(&self) -> (r: &DependencyId)
        ensures
            *r == self.id,
    {
        &self.id
    }

    pub fn range(&self) -> (r: Option<&DependencyRange>)
        ensures
            r == Some(&self.range),
    {
        Some(&self.range)
    }

    pub fn source_order(&self) -> (r: Option<i32>)
        ensures
            r == Some(self.source_order),
    {
        Some(self.source_order)
    }

    pub fn category(&self) -> (r: DependencyCategory)
        ensures
            r == DependencyCategory::Esm,
    {
        DependencyCategory::Esm
    }

    pub fn dependency_type(&self) -> (r: DependencyType)
        ensures
            r == DependencyType::EsmImportSpecifier,
    {
        DependencyType::EsmImportSpecifier
    }

    pub fn could_affect_referencing_module(&self) -> (r: AffectType)
        ensures
            r == AffectType::True,
    {
        AffectType::True
    }

    pub fn dependency_template(&self) -> (r: Option<DependencyTemplateType>)
        ensures
            r == Some(DependencyTemplateType::Dependency(DependencyType::EsmImportSpecifier)),
    {
        Some(ESMImportSpecifierDependencyTemplate::template_type())
    }

    pub fn get_attributes(&self) -> (r: Option<&ImportAttributes>)
        ensures
            r == match self.attributes {
                Some(a) => Some(&a),
                None => None::<&ImportAttributes>,
            },
    {
        self.attributes.as_ref()
    }

    pub fn set_used_by_exports(&mut self, used_by_exports: Option<UsedByExports>)
        ensures
            *final(self) == (ESMImportSpecifierDependency { used_by_exports, ..*old(self) }),
    {
        self.used_by_exports = used_by_exports;
    }

    /// The text that identifies the imported resource together with its
    /// attributes.
    pub fn resource_identifier(&self) -> (r: Option<&String>)
        ensures
            r == Some(&self.resource_identifier),
    {
        Some(&self.resource_identifier)
    }

    pub fn request(&self) -> (r: &String)
        ensures
            *r == self.request,
    {
        &self.request
    }

    pub fn user_request(&self) -> (r: &String)
        ensures
            *r == self.request,
    {
        &self.request
    }

    pub fn set_request(&mut self, request: String)
        ensures
            *final(self) == (ESMImportSpecifierDependency { request, ..*old(self) }),
    {
        self.request = request;
    }
}

/// The imported module counts as concatenated into the scope exactly when
/// the dependency makes a connection and the module it points at is one
/// of the scope's modules, wherever it stands among them; without a scope
/// it never does.
pub proof fn lemma_in_scope_is_membership(
    d: ESMImportSpecifierDependency,
    mg: &ModuleGraph,
    modules: Seq<ModuleIdentifier>,
)
    ensures
        d.spec_in_scope(mg, Some(modules)) <==> (mg.connections@.contains_key(d.id) && exists|j: int|
            0 <= j < modules.len() && modules[j] == mg.connections@[d.id].module_identifier),
        !d.spec_in_scope(mg, None),
{
}

/// A call through a path of two or more names, on an import that is not
/// direct and whose path does not start with `default`, references the
/// path without its last name: the called function's object is the
/// call's context and is referenced whole.
pub proof fn lemma_call_references_context_object(d: ESMImportSpecifierDependency, mg: &ModuleGraph)
    requires
        d.call,
        !d.direct_import,
        d.spec_ids(mg).len() >= 2,
        d.spec_ids(mg)[0]@ != "default"@,
    ensures
        d.spec_referenced_exports(mg) == spec_destructuring(d.props(), Some(d.spec_ids(mg).drop_last())),
        d.props() is None ==> d.spec_referenced_exports(mg) == seq![ReferencedExportView::Array(
            d.spec_ids(mg).subrange(0, d.spec_ids(mg).len() - 1),
        )],
{
    assert(d.spec_ids(mg).drop_last() =~= d.spec_ids(mg).subrange(0, d.spec_ids(mg).len() - 1));
}

} // verus!
