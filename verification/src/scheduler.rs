use std::collections::HashMap;
use vstd::prelude::*;

verus! {

/// Where a loader run stands.
#[derive(Clone, Copy, Debug, PartialEq, Eq, Structural)]
pub enum LoaderState {
    Init,
    Pitching,
    ProcessResource,
    Normal,
    Finished,
}

/// A loader of the chain, as the runner keeps it.
pub struct LoaderItem<D> {
    pub request: String,
    pub data: D,
    pub normal_executed: bool,
    pub pitch_executed: bool,
    pub finish_called: bool,
}

/// A loader of the chain, as the JavaScript side reports it.
pub struct JsLoaderItem<D> {
    pub request: String,
    pub data: D,
    pub normal_executed: bool,
    pub pitch_executed: bool,
}

/// An error that a JavaScript loader raised.
pub struct JsLoaderError {
    pub message: String,
    pub stack: Option<String>,
    pub hide_stack: Option<bool>,
}

/// The state of a loader run as the JavaScript side hands it back. A
/// content of none stands for JavaScript's `null`.
pub struct JsLoaderContext<D, A> {
    pub error: Option<JsLoaderError>,
    pub cacheable: bool,
    pub file_dependencies: Vec<String>,
    pub context_dependencies: Vec<String>,
    pub missing_dependencies: Vec<String>,
    pub build_dependencies: Vec<String>,
    pub content: Option<Vec<u8>>,
    pub source_map: Option<Vec<u8>>,
    pub additional_data: Option<A>,
    pub loader_items: Vec<JsLoaderItem<D>>,
    pub loader_index: i32,
    pub parse_meta: HashMap<String, String>,
}

/// The state of a loader run on the Rust side. Each dependency list is a
/// set of paths, held as a list that holds every path once, in the order
/// in which the paths were first reported: vstd states a hash set's
/// contents only for keys of primitive types, not for `String`.
pub struct LoaderContext<D, S, A> {
    pub state: LoaderState,
    pub cacheable: bool,
    pub file_dependencies: Vec<String>,
    pub context_dependencies: Vec<String>,
    pub missing_dependencies: Vec<String>,
    pub build_dependencies: Vec<String>,
    pub content: Option<Vec<u8>>,
    pub source_map: Option<S>,
    pub additional_data: Option<A>,
    pub loader_items: Vec<LoaderItem<D>>,
    pub loader_index: i32,
    pub parse_meta: HashMap<String, String>,
}

impl<D, S, A> LoaderContext<D, S, A> {
    /// Each dependency list holds every path once.
    pub open spec fn wf(&self) -> bool {
        &&& path_views(self.file_dependencies@).no_duplicates()
        &&& path_views(self.context_dependencies@).no_duplicates()
        &&& path_views(self.missing_dependencies@).no_duplicates()
        &&& path_views(self.build_dependencies@).no_duplicates()
    }
}

/// A loader error together with what the loader had reported so far.
pub struct CapturedLoaderError {
    pub message: String,
    pub stack: Option<String>,
    pub hide_stack: Option<bool>,
    pub file_dependencies: Vec<String>,
    pub context_dependencies: Vec<String>,
    pub missing_dependencies: Vec<String>,
    pub build_dependencies: Vec<String>,
    pub cacheable: bool,
}

/// Why merging the JavaScript side's state failed.
pub enum MergeError<E> {
    /// The loader raised an error.
    Captured(CapturedLoaderError),
    /// The source map could not be parsed.
    SourceMap(E),
}

/// Loaders whose request starts with this prefix are built in.
pub open spec fn builtin_loader_prefix() -> Seq<char> {
    "builtin:"@
}

/// The paths, by their text.
pub open spec fn path_views(s: Seq<String>) -> Seq<Seq<char>> {
    s.map_values(|p: String| p@)
}

/// The paths of `s`, each once, in the order of their first occurrence.
pub open spec fn distinct_paths(s: Seq<Seq<char>>) -> Seq<Seq<char>>
    decreases s.len(),
{
    if s.len() == 0 {
        seq![]
    } else {
        let rest = distinct_paths(s.drop_last());
        if rest.contains(s.last()) {
            rest
        } else {
            rest.push(s.last())
        }
    }
}

/// Keeping each path once loses no path and adds none, and what remains
/// holds no path twice.
pub proof fn lemma_distinct_paths(s: Seq<Seq<char>>)
    ensures
        distinct_paths(s).no_duplicates(),
        distinct_paths(s).to_set() == s.to_set(),
    decreases s.len(),
{
    if s.len() > 0 {
        let rest = distinct_paths(s.drop_last());
        lemma_distinct_paths(s.drop_last());
        assert(s =~= s.drop_last().push(s.last()));
        if rest.contains(s.last()) {
            assert(distinct_paths(s).to_set() =~= s.to_set()) by {
                assert forall|x: Seq<char>| s.contains(x) implies rest.contains(x) by {
                    if x != s.last() {
                        let j = choose|j: int| 0 <= j < s.len() && s[j] == x;
                        assert(s.drop_last().contains(x)) by {
                            assert(s.drop_last()[j] == x);
                        }
                        assert(rest.to_set().contains(x));
                    }
                }
                assert forall|x: Seq<char>| rest.contains(x) implies s.contains(x) by {
                    assert(rest.to_set().contains(x));
                    assert(s.drop_last().to_set().contains(x));
                    let j = choose|j: int| 0 <= j < s.drop_last().len() && s.drop_last()[j] == x;
                    assert(s[j] == x);
                }
            }
        } else {
            let out = rest.push(s.last());
            assert forall|i: int, j: int| 0 <= i < out.len() && 0 <= j < out.len() && i != j implies out[i] != out[j] by {
                if i == rest.len() {
                    assert(out[j] == rest[j]);
                } else if j == rest.len() {
                    assert(out[i] == rest[i]);
                }
            }
            assert(distinct_paths(s).to_set() =~= s.to_set()) by {
                assert forall|x: Seq<char>| s.contains(x) implies out.contains(x) by {
                    if x == s.last() {
                        assert(out[rest.len() as int] == x);
                    } else {
                        let j = choose|j: int| 0 <= j < s.len() && s[j] == x;
                        assert(s.drop_last()[j] == x);
                        assert(rest.to_set().contains(x));
                        let k = choose|k: int| 0 <= k < rest.len() && rest[k] == x;
                        assert(out[k] == x);
                    }
                }
                assert forall|x: Seq<char>| out.contains(x) implies s.contains(x) by {
                    let k = choose|k: int| 0 <= k < out.len() && out[k] == x;
                    if k == rest.len() {
                        assert(s[s.len() - 1] == x);
                    } else {
                        assert(rest[k] == x);
                        assert(s.drop_last().to_set().contains(x));
                        let j = choose|j: int| 0 <= j < s.drop_last().len() && s.drop_last()[j] == x;
                        assert(s[j] == x);
                    }
                }
            }
        }
    }
}

/// A loader of the chain after the JavaScript side ran it: it keeps the
/// flags that either side set, takes the data that JavaScript left, and
/// counts as finished.
pub open spec fn merged_item<D>(to: LoaderItem<D>, from: JsLoaderItem<D>) -> LoaderItem<D> {
    LoaderItem {
        request: to.request,
        data: from.data,
        normal_executed: to.normal_executed || from.normal_executed,
        pitch_executed: to.pitch_executed || from.pitch_executed,
        finish_called: true,
    }
}

/// The chain after the JavaScript side ran it: the loaders of both sides
/// paired in order, as many as the shorter side has.
pub open spec fn merged_items<D>(to: Seq<LoaderItem<D>>, from: Seq<JsLoaderItem<D>>) -> Seq<LoaderItem<D>> {
    Seq::new(
        if to.len() <= from.len() { to.len() } else { from.len() },
        |i: int| merged_item(to[i], from[i]),
    )
}

/// After the JavaScript side ran, the merged chain pairs the loaders of
/// both sides, as many as the shorter side has; each merged loader keeps
/// its request, takes the data that JavaScript left, counts as finished,
/// and has run a phase exactly when either side says it ran that phase
/// (a pitch never marks the normal phase, nor the other way round).
pub proof fn lemma_merged_items_finished<D>(to: Seq<LoaderItem<D>>, from: Seq<JsLoaderItem<D>>)
    ensures
        merged_items(to, from).len() == (if to.len() <= from.len() { to.len() } else { from.len() }),
        forall|i: int| 0 <= i < merged_items(to, from).len() ==> {
            let item = #[trigger] merged_items(to, from)[i];
            &&& item.finish_called
            &&& item.request == to[i].request
            &&& item.data == from[i].data
            &&& item.normal_executed == (to[i].normal_executed || from[i].normal_executed)
            &&& item.pitch_executed == (to[i].pitch_executed || from[i].pitch_executed)
        },
{
}

/// Whether `s` starts with `prefix`.
pub fn starts_with(s: &str, prefix: &str) -> (r: bool)
    ensures
        r == prefix@.is_prefix_of(s@),
{
    let n = prefix.unicode_len();
    let m = s.unicode_len();
    if n > m {
        return false;
    }
    let mut i: usize = 0;
    while i < n
        invariant
            n == prefix@.len(),
            n <= m == s@.len(),
            i <= n,
            forall|j: int| 0 <= j < i ==> prefix@[j] == s@[j],
        decreases n - i,
    {
        if prefix.get_char(i) != s.get_char(i) {
            return false;
        }
        i = i + 1;
    }
    assert(prefix@ =~= s@.subrange(0, n as int));
    true
}

/// Whether the runner should hand the current loader to JavaScript:
/// every loader but the built-in ones.
pub fn loader_should_yield<D, S, A>(loader_context: &LoaderContext<D, S, A>) -> (r: Option<bool>)
    requires
        loader_context.state is Pitching || loader_context.state is Normal,
        0 <= loader_context.loader_index < loader_context.loader_items@.len(),
    ensures
        r == Some(!builtin_loader_prefix().is_prefix_of(
            loader_context.loader_items@[loader_context.loader_index as int].request@,
        )),
{
    let current = &loader_context.loader_items[loader_context.loader_index as usize];
    Some(!starts_with(current.request.as_str(), "builtin:"))
}

/// Whether `v` holds a path with the text of `p`.
fn contains_path(v: &Vec<String>, p: &String) -> (r: bool)
    ensures
        r == path_views(v@).contains(p@),
{
    let mut i: usize = 0;
    while i < v.len()
        invariant
            i <= v@.len(),
            forall|j: int| 0 <= j < i ==> v@[j]@ != p@,
        decreases v@.len() - i,
    {
        if v[i] == *p {
            assert(path_views(v@)[i as int] == p@);
            return true;
        }
        i = i + 1;
    }
    proof {
        if path_views(v@).contains(p@) {
            let j = choose|j: int| 0 <= j < path_views(v@).len() && path_views(v@)[j] == p@;
            assert(v@[j]@ == p@);
        }
    }
    false
}

/// The paths of `paths`, each once, in the order of first occurrence.
pub fn distinct(paths: Vec<String>) -> (r: Vec<String>)
    ensures
        path_views(r@) == distinct_paths(path_views(paths@)),
{
    let ghost s = path_views(paths@);
    let mut r: Vec<String> = Vec::new();
    for p in it: paths.into_iter()
        invariant
            s == path_views(it.seq()),
            path_views(r@) == distinct_paths(s.take(it.index() as int)),
    {
        let ghost i = it.index();
        proof {
            assert(s.take(i + 1).drop_last() =~= s.take(i as int));
            assert(s.take(i + 1).last() == p@);
        }
        if !contains_path(&r, &p) {
            r.push(p);
            proof {
                assert(path_views(r@) =~= path_views(r@.drop_last()).push(p@));
            }
        }
    }
    proof {
        assert(s.take(s.len() as int) =~= s);
    }
    r
}

/// Pairs the loaders of both sides in order and merges each pair.
fn merge_items<D>(to: Vec<LoaderItem<D>>, from: Vec<JsLoaderItem<D>>) -> (r: Vec<LoaderItem<D>>)
    ensures
        r@ == merged_items(to@, from@),
{
    let ghost t0 = to@;
    let ghost f0 = from@;
    let n = if to.len() <= from.len() { to.len() } else { from.len() };
    let mut to = to;
    let mut from = from;
    let mut r: Vec<LoaderItem<D>> = Vec::new();
    let mut i: usize = 0;
    while i < n
        invariant
            n == (if t0.len() <= f0.len() { t0.len() } else { f0.len() }),
            i <= n,
            to@ == t0.skip(i as int),
            from@ == f0.skip(i as int),
            r@ == merged_items(t0.take(i as int), f0.take(i as int)),
        decreases n - i,
    {
        let t = to.remove(0);
        let f = from.remove(0);
        r.push(LoaderItem {
            request: t.request,
            data: f.data,
            normal_executed: t.normal_executed || f.normal_executed,
            pitch_executed: t.pitch_executed || f.pitch_executed,
            finish_called: true,
        });
        proof {
            assert(to@ =~= t0.skip(i + 1));
            assert(from@ =~= f0.skip(i + 1));
            assert(r@ =~= merged_items(t0.take(i + 1), f0.take(i + 1)));
        }
        i = i + 1;
    }
    proof {
        assert(r@ =~= merged_items(t0, f0));
    }
    r
}

/// Takes back the state of a loader run from the JavaScript side.
///
/// A loader error comes back as the captured error, with `to` left as it
/// was. Otherwise `to` takes the cacheable flag and the dependencies,
/// each path once; then, if `parsed_source_map` (the parse of the
/// returned source map) failed, that failure comes back; else `to` takes
/// the content, source map and additional data, the loaders of both
/// sides merged pair by pair, the loader index and the parse meta.
pub fn merge_loader_context<D, S, A, E>(
    to: &mut LoaderContext<D, S, A>,
    from: JsLoaderContext<D, A>,
    parsed_source_map: Result<Option<S>, E>,
) -> (r: Result<(), MergeError<E>>)
    ensures
        match from.error {
            Some(e) => {
                &&& r matches Err(MergeError::Captured(c)) && c.message == e.message && c.stack == e.stack
                    && c.hide_stack == e.hide_stack && c.file_dependencies == from.file_dependencies
                    && c.context_dependencies == from.context_dependencies
                    && c.missing_dependencies == from.missing_dependencies
                    && c.build_dependencies == from.build_dependencies && c.cacheable == from.cacheable
                &&& *final(to) == *old(to)
            },
            None => {
                &&& final(to).wf()
                &&& final(to).cacheable == from.cacheable
                &&& path_views(final(to).file_dependencies@) == distinct_paths(path_views(from.file_dependencies@))
                &&& path_views(final(to).context_dependencies@) == distinct_paths(path_views(from.context_dependencies@))
                &&& path_views(final(to).missing_dependencies@) == distinct_paths(path_views(from.missing_dependencies@))
                &&& path_views(final(to).build_dependencies@) == distinct_paths(path_views(from.build_dependencies@))
                &&& final(to).state == old(to).state
                &&& match parsed_source_map {
                    Err(err) => {
                        &&& r matches Err(MergeError::SourceMap(e2)) && e2 == err
                        &&& final(to).content == old(to).content
                        &&& final(to).source_map == old(to).source_map
                        &&& final(to).additional_data == old(to).additional_data
                        &&& final(to).loader_items == old(to).loader_items
                        &&& final(to).loader_index == old(to).loader_index
                        &&& final(to).parse_meta == old(to).parse_meta
                    },
                    Ok(source_map) => {
                        &&& r is Ok
                        &&& final(to).content == from.content
                        &&& final(to).source_map == source_map
                        &&& final(to).additional_data == from.additional_data
                        &&& final(to).loader_items@ == merged_items(old(to).loader_items@, from.loader_items@)
                        &&& final(to).loader_index == from.loader_index
                        &&& final(to).parse_meta == from.parse_meta
                    },
                }
            },
        },
{
    let JsLoaderContext {
        error,
        cacheable,
        file_dependencies,
        context_dependencies,
        missing_dependencies,
        build_dependencies,
        content,
        source_map: _,
        additional_data,
        loader_items,
        loader_index,
        parse_meta,
    } = from;
    if let Some(error) = error {
        return Err(MergeError::Captured(CapturedLoaderError {
            message: error.message,
            stack: error.stack,
            hide_stack: error.hide_stack,
            file_dependencies,
            context_dependencies,
            missing_dependencies,
            build_dependencies,
            cacheable,
        }));
    }
    proof {
        lemma_distinct_paths(path_views(file_dependencies@));
        lemma_distinct_paths(path_views(context_dependencies@));
        lemma_distinct_paths(path_views(missing_dependencies@));
        lemma_distinct_paths(path_views(build_dependencies@));
    }
    to.cacheable = cacheable;
    to.file_dependencies = distinct(file_dependencies);
    to.context_dependencies = distinct(context_dependencies);
    to.missing_dependencies = distinct(missing_dependencies);
    to.build_dependencies = distinct(build_dependencies);
    let source_map = match parsed_source_map {
        Ok(source_map) => source_map,
        Err(err) => return Err(MergeError::SourceMap(err)),
    };
    to.content = content;
    to.source_map = source_map;
    to.additional_data = additional_data;
    let mut old_items: Vec<LoaderItem<D>> = Vec::new();
    std::mem::swap(&mut old_items, &mut to.loader_items);
    to.loader_items = merge_items(old_items, loader_items);
    to.loader_index = loader_index;
    to.parse_meta = parse_meta;
    Ok(())
}

} // verus!
