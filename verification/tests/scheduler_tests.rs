use rspack_ctrl::scheduler::{
    distinct, loader_should_yield, merge_loader_context, starts_with, JsLoaderContext,
    JsLoaderError, JsLoaderItem, LoaderContext, LoaderItem, LoaderState, MergeError,
};
use std::collections::HashMap;

fn item(request: &str, data: u32) -> LoaderItem<u32> {
    LoaderItem { request: request.to_string(), data, normal_executed: false, pitch_executed: false, finish_called: false }
}

fn context(state: LoaderState, items: Vec<LoaderItem<u32>>) -> LoaderContext<u32, String, u8> {
    LoaderContext {
        state,
        cacheable: true,
        file_dependencies: vec!["/old".to_string()],
        context_dependencies: vec![],
        missing_dependencies: vec![],
        build_dependencies: vec![],
        content: None,
        source_map: None,
        additional_data: None,
        loader_items: items,
        loader_index: 0,
        parse_meta: HashMap::new(),
    }
}

fn js(error: Option<JsLoaderError>, items: Vec<JsLoaderItem<u32>>) -> JsLoaderContext<u32, u8> {
    let mut parse_meta = HashMap::new();
    parse_meta.insert("k".to_string(), "v".to_string());
    JsLoaderContext {
        error,
        cacheable: false,
        file_dependencies: vec!["/a".to_string(), "/b".to_string(), "/a".to_string()],
        context_dependencies: vec!["/c".to_string()],
        missing_dependencies: vec![],
        build_dependencies: vec!["/d".to_string(), "/d".to_string()],
        content: Some(vec![1, 2, 3]),
        source_map: Some(b"{}".to_vec()),
        additional_data: Some(7),
        loader_items: items,
        loader_index: 1,
        parse_meta,
    }
}

#[test]
fn builtin_loaders_do_not_yield() {
    let c = context(LoaderState::Normal, vec![item("builtin:swc-loader", 0)]);
    assert_eq!(loader_should_yield(&c), Some(false));
    let c = context(LoaderState::Pitching, vec![item("./js-loader.js", 0)]);
    assert_eq!(loader_should_yield(&c), Some(true));
    let c = context(LoaderState::Normal, vec![item("builtin", 0)]);
    assert_eq!(loader_should_yield(&c), Some(true));
}

#[test]
fn prefix_check() {
    assert!(starts_with("builtin:x", "builtin:"));
    assert!(starts_with("abc", ""));
    assert!(!starts_with("ab", "abc"));
    assert!(!starts_with("xbc", "abc"));
}

#[test]
fn distinct_keeps_first_occurrences() {
    let v: Vec<String> = ["b", "a", "b", "c", "a"].iter().map(|s| s.to_string()).collect();
    assert_eq!(distinct(v), vec!["b", "a", "c"]);
}

#[test]
fn loader_error_is_captured_and_context_kept() {
    let mut to = context(LoaderState::Normal, vec![item("l1", 0)]);
    let err = JsLoaderError { message: "boom".to_string(), stack: Some("at x".to_string()), hide_stack: Some(true) };
    match merge_loader_context(&mut to, js(Some(err), vec![]), Ok::<_, String>(Some("map".to_string()))) {
        Err(MergeError::Captured(c)) => {
            assert_eq!(c.message, "boom");
            assert_eq!(c.stack.as_deref(), Some("at x"));
            assert_eq!(c.hide_stack, Some(true));
            assert_eq!(c.file_dependencies, vec!["/a", "/b", "/a"]);
            assert!(!c.cacheable);
        },
        _ => panic!("captured error expected"),
    }
    assert!(to.cacheable);
    assert_eq!(to.file_dependencies, vec!["/old"]);
    assert_eq!(to.loader_items[0].data, 0);
}

#[test]
fn merge_takes_back_the_run() {
    let mut to = context(LoaderState::Normal, vec![item("l1", 0), item("l2", 0), item("l3", 0)]);
    to.loader_items[0].normal_executed = true;
    let from_items = vec![
        JsLoaderItem { request: "l1".to_string(), data: 10, normal_executed: false, pitch_executed: true },
        JsLoaderItem { request: "l2".to_string(), data: 20, normal_executed: true, pitch_executed: false },
    ];
    let r = merge_loader_context(&mut to, js(None, from_items), Ok::<_, String>(Some("map".to_string())));
    assert!(r.is_ok());
    assert!(!to.cacheable);
    assert_eq!(to.file_dependencies, vec!["/a", "/b"]);
    assert_eq!(to.context_dependencies, vec!["/c"]);
    assert_eq!(to.build_dependencies, vec!["/d"]);
    assert_eq!(to.content, Some(vec![1, 2, 3]));
    assert_eq!(to.source_map.as_deref(), Some("map"));
    assert_eq!(to.additional_data, Some(7));
    assert_eq!(to.loader_items.len(), 2);
    assert_eq!(to.loader_items[0].data, 10);
    assert!(to.loader_items[0].normal_executed && to.loader_items[0].pitch_executed && to.loader_items[0].finish_called);
    assert_eq!(to.loader_items[1].request, "l2");
    assert!(to.loader_items[1].normal_executed && !to.loader_items[1].pitch_executed);
    assert_eq!(to.loader_index, 1);
    assert_eq!(to.parse_meta.get("k").map(String::as_str), Some("v"));
}

#[test]
fn unparsable_source_map_fails_after_dependencies() {
    let mut to = context(LoaderState::Normal, vec![item("l1", 0)]);
    match merge_loader_context(&mut to, js(None, vec![]), Err::<Option<String>, String>("bad map".to_string())) {
        Err(MergeError::SourceMap(e)) => assert_eq!(e, "bad map"),
        _ => panic!("source map error expected"),
    }
    assert_eq!(to.file_dependencies, vec!["/a", "/b"]);
    assert!(!to.cacheable);
    assert_eq!(to.loader_items.len(), 1);
    assert_eq!(to.content, None);
}
