use rspack_ctrl::esm::{
    AffectType, ConnectionState, DependencyCategory, DependencyRange, DependencyTemplateType,
    DependencyType, ESMImportSpecifierDependency, ESMImportSpecifierDependencyTemplate,
    ExportExprPlan, ExportPresenceMode, ExtendedReferencedExport, JavascriptParserOptions,
    ImportAttributes, SourceEdit, UsedByExports,
};
use rspack_ctrl::module_graph::{Connection, ExportsType, ModuleGraph};

fn names(v: &[&str]) -> Vec<String> {
    v.iter().map(|s| s.to_string()).collect()
}

fn dep(ids: &[&str], call: bool, direct_import: bool, props: Option<&[&str]>) -> ESMImportSpecifierDependency {
    ESMImportSpecifierDependency::new(
        1,
        "./m".to_string(),
        "local".to_string(),
        0,
        false,
        true,
        DependencyRange { start: 10, end: 15 },
        names(ids),
        call,
        direct_import,
        ExportPresenceMode::Auto,
        props.map(names),
        None,
        "esm ./m".to_string(),
    )
}

fn show(v: &[ExtendedReferencedExport]) -> Vec<String> {
    v.iter()
        .map(|e| match e {
            ExtendedReferencedExport::Array(a) => format!("[{}]", a.join(",")),
            ExtendedReferencedExport::Export(r) => format!("{{{}:{}}}", r.name.join(","), r.can_mangle),
        })
        .collect()
}

fn graph_with(et: Option<ExportsType>) -> ModuleGraph {
    let mut g = ModuleGraph::new();
    if let Some(et) = et {
        g.parent_modules.insert(1, 100);
        g.exports_types.insert(1, et);
    }
    g
}

#[test]
fn named_import_references_its_path() {
    let d = dep(&["a"], false, false, None);
    assert_eq!(show(&d.get_referenced_exports(&graph_with(None))), vec!["[a]"]);
}

#[test]
fn namespace_import_references_whole_exports_object() {
    let d = dep(&[], false, false, None);
    assert_eq!(show(&d.get_referenced_exports(&graph_with(None))), vec!["[]"]);
}

#[test]
fn destructured_namespace_references_each_property() {
    let d = dep(&[], false, false, Some(&["x", "y"]));
    assert_eq!(show(&d.get_referenced_exports(&graph_with(None))), vec!["{x:false}", "{y:false}"]);
}

#[test]
fn destructured_named_import_references_properties_below_path() {
    let d = dep(&["a", "b"], false, false, Some(&["x"]));
    assert_eq!(show(&d.get_referenced_exports(&graph_with(None))), vec!["{a,b,x:false}"]);
}

#[test]
fn default_import_of_default_only_module() {
    let d = dep(&["default"], false, false, None);
    assert_eq!(show(&d.get_referenced_exports(&graph_with(Some(ExportsType::DefaultOnly)))), vec!["[]"]);
    let d = dep(&["default"], false, false, Some(&["p"]));
    assert_eq!(show(&d.get_referenced_exports(&graph_with(Some(ExportsType::DefaultWithNamed)))), vec!["{p:false}"]);
}

#[test]
fn default_path_drops_default_for_default_with_named() {
    let d = dep(&["default", "a"], false, false, None);
    assert_eq!(show(&d.get_referenced_exports(&graph_with(Some(ExportsType::DefaultWithNamed)))), vec!["[a]"]);
    // the namespace object is the call's context: the last name is dropped
    let d = dep(&["default", "a"], true, false, None);
    assert_eq!(show(&d.get_referenced_exports(&graph_with(Some(ExportsType::DefaultWithNamed)))), vec!["[]"]);
}

#[test]
fn default_of_dynamic_module_references_exports_object() {
    let d = dep(&["default", "a"], false, false, Some(&["x"]));
    assert_eq!(show(&d.get_referenced_exports(&graph_with(Some(ExportsType::Dynamic)))), vec!["[]"]);
}

#[test]
fn default_of_namespace_module_keeps_path() {
    let d = dep(&["default", "a"], false, false, None);
    assert_eq!(show(&d.get_referenced_exports(&graph_with(Some(ExportsType::Namespace)))), vec!["[default,a]"]);
}

#[test]
fn call_through_member_drops_last_name() {
    let d = dep(&["a", "b", "c"], true, false, None);
    assert_eq!(show(&d.get_referenced_exports(&graph_with(None))), vec!["[a,b]"]);
    let d = dep(&["a", "b", "c"], true, true, None);
    assert_eq!(show(&d.get_referenced_exports(&graph_with(None))), vec!["[a,b,c]"]);
    let d = dep(&["a"], true, false, None);
    assert_eq!(show(&d.get_referenced_exports(&graph_with(None))), vec!["[a]"]);
    let mut d = dep(&["a"], true, false, None);
    d.namespace_object_as_context = true;
    assert_eq!(show(&d.get_referenced_exports(&graph_with(None))), vec!["[]"]);
}

#[test]
fn recorded_ids_take_precedence() {
    let d = dep(&["a"], false, false, None);
    let mut g = graph_with(None);
    g.dep_meta_ids.insert(1, names(&["b", "c"]));
    assert_eq!(d.get_ids(&g), names(&["b", "c"]).as_slice());
    assert_eq!(d._get_ids(&g), names(&["b", "c"]).as_slice());
    assert_eq!(show(&d.get_referenced_exports(&g)), vec!["[b,c]"]);
    assert_eq!(d.get_ids(&graph_with(None)), names(&["a"]).as_slice());
}

#[test]
fn destructuring_without_properties() {
    let d = dep(&["a"], false, false, None);
    let ids = names(&["q"]);
    assert_eq!(show(&d.get_referenced_exports_in_destructuring(Some(ids.as_slice()))), vec!["[q]"]);
    assert_eq!(show(&d.get_referenced_exports_in_destructuring(None)), vec!["[]"]);
}

#[test]
fn export_presence_mode_from_options() {
    let o = |i, e, s| JavascriptParserOptions { import_exports_presence: i, exports_presence: e, strict_export_presence: s };
    assert_eq!(ESMImportSpecifierDependency::create_export_presence_mode(&o(Some(ExportPresenceMode::Warn), Some(ExportPresenceMode::Error), Some(true))), ExportPresenceMode::Warn);
    assert_eq!(ESMImportSpecifierDependency::create_export_presence_mode(&o(None, Some(ExportPresenceMode::Off), Some(true))), ExportPresenceMode::Off);
    assert_eq!(ESMImportSpecifierDependency::create_export_presence_mode(&o(None, None, Some(true))), ExportPresenceMode::Error);
    assert_eq!(ESMImportSpecifierDependency::create_export_presence_mode(&o(None, None, Some(false))), ExportPresenceMode::Auto);
    assert_eq!(ESMImportSpecifierDependency::create_export_presence_mode(&o(None, None, None)), ExportPresenceMode::Auto);
}

#[test]
fn render_plans() {
    let mut g = graph_with(None);
    g.connections.insert(1, Connection { dependency_id: 1, original_module_identifier: Some(50), module_identifier: 60 });
    let scope: Vec<u64> = vec![60, 70];
    let other_scope: Vec<u64> = vec![70];
    let d = dep(&["a"], true, false, None);
    assert!(d.render_plan(&g, false, Some(scope.as_slice())).is_none());
    for s in [None, Some(other_scope.as_slice())] {
        match d.render_plan(&g, true, s) {
            Some(ExportExprPlan::ExportFromImport { ids, call, call_context, asi_safe_hint }) => {
                assert_eq!(ids, names(&["a"]));
                assert!(call && call_context);
                assert_eq!(asi_safe_hint, Some(true));
            },
            _ => panic!("export from import expected"),
        }
    }
    match d.render_plan(&g, true, Some(scope.as_slice())) {
        Some(ExportExprPlan::ModuleReferenceToIds { asi_safe, ids, call, direct_import }) => {
            assert!(asi_safe && call && !direct_import);
            assert_eq!(ids, names(&["a"]));
        },
        _ => panic!("reference to ids expected"),
    }
    let mut d2 = dep(&["a"], false, false, None);
    d2.namespace_object_as_context = true;
    assert!(matches!(d2.render_plan(&g, true, Some(scope.as_slice())), Some(ExportExprPlan::ModuleReferenceWithProperty { .. })));
    let d3 = dep(&[], false, false, None);
    assert!(matches!(d3.render_plan(&g, true, Some(scope.as_slice())), Some(ExportExprPlan::ModuleReference { asi_safe: true })));
    // without a connection the module is not in any scope
    assert!(matches!(d3.render_plan(&graph_with(None), true, Some(scope.as_slice())), Some(ExportExprPlan::ExportFromImport { .. })));
}

#[test]
fn export_edit_for_shorthand_and_plain_use() {
    let d = dep(&["a"], false, false, None);
    match d.export_edit("m.a".to_string()) {
        SourceEdit::Replace { start, end, text } => assert_eq!((start, end, text.as_str()), (10, 15, "m.a")),
        _ => panic!("replace expected"),
    }
    let mut d = dep(&["a"], false, false, None);
    d.shorthand = true;
    match d.export_edit("m.a".to_string()) {
        SourceEdit::Insert { pos, text } => assert_eq!((pos, text.as_str()), (15, ": m.a")),
        _ => panic!("insert expected"),
    }
}

#[test]
fn getters_and_template() {
    let mut d = dep(&["a"], false, false, None);
    assert_eq!(d.imported_as(), "(imported as 'local')");
    assert_eq!(*d.id(), 1);
    assert_eq!(d.range(), Some(&DependencyRange { start: 10, end: 15 }));
    assert_eq!(d.source_order(), Some(0));
    assert_eq!(d.category(), DependencyCategory::Esm);
    assert_eq!(d.dependency_type(), DependencyType::EsmImportSpecifier);
    assert_eq!(d.could_affect_referencing_module(), AffectType::True);
    assert_eq!(d.get_module_evaluation_side_effects_state(), ConnectionState::Bool(false));
    assert_eq!(d.request(), "./m");
    assert_eq!(d.user_request(), "./m");
    d.set_request("./n".to_string());
    assert_eq!(d.request(), "./n");
    let t = DependencyTemplateType::Dependency(DependencyType::EsmImportSpecifier);
    assert_eq!(ESMImportSpecifierDependencyTemplate::template_type(), t);
    assert_eq!(d.dependency_template(), Some(t));
    assert!(!d.namespace_object_as_context);
}

#[test]
fn linking_error_request_needs_parent_and_effective_presence() {
    let d = dep(&["a"], false, false, None);
    assert!(d.linking_error_request(&graph_with(None), Some(true)).is_none());
    let mut g = graph_with(Some(ExportsType::Namespace));
    // the parent is recorded but the graph does not know the module
    assert!(d.linking_error_request(&g, Some(true)).is_none());
    g.modules.insert(100);
    assert!(d.linking_error_request(&g, None).is_none());
    assert_eq!(d.linking_error_request(&g, Some(false)), Some((false, "(imported as 'local')".to_string())));
    assert_eq!(d.linking_error_request(&g, Some(true)), Some((true, "(imported as 'local')".to_string())));
}

#[test]
fn construction_keeps_attributes_and_resource_identifier() {
    let attrs = ImportAttributes { entries: vec![("type".to_string(), "json".to_string())] };
    let mut d = ESMImportSpecifierDependency::new(
        3,
        "./a.json".to_string(),
        "a".to_string(),
        2,
        false,
        false,
        DependencyRange { start: 0, end: 1 },
        names(&["default"]),
        false,
        false,
        ExportPresenceMode::Warn,
        None,
        Some(attrs),
        "esm ./a.json with type json".to_string(),
    );
    assert_eq!(d.get_attributes().unwrap().entries, vec![("type".to_string(), "json".to_string())]);
    assert_eq!(d.resource_identifier().map(String::as_str), Some("esm ./a.json with type json"));
    assert!(d.used_by_exports.is_none());
    assert!(!d.namespace_object_as_context);
    d.set_used_by_exports(Some(UsedByExports::Bool(true)));
    assert!(matches!(d.used_by_exports, Some(UsedByExports::Bool(true))));
    assert_eq!(d.request(), "./a.json");
    assert_eq!(dep(&["a"], false, false, None).get_attributes().map(|a| a.entries.len()), None);
}
