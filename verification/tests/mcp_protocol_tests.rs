use codebase_rag::mcp::server::{method_not_found_message, route_request, RequestRoute};
use codebase_rag::mcp::tools::{
    find_symbols_args, format_snippet, read_snippet_args, repo_map_budget, search_codebase_args,
    search_files_args, tool_catalogue, tool_kind, unknown_tool_message, ParamKind, ToolKind,
};

#[test]
fn test_route_request() {
    assert_eq!(route_request("initialize", true), RequestRoute::Initialize);
    assert_eq!(route_request("notifications/initialized", false), RequestRoute::NoResponse);
    assert_eq!(route_request("initialized", true), RequestRoute::NoResponse);
    assert_eq!(route_request("ping", true), RequestRoute::Ping);
    assert_eq!(route_request("tools/list", true), RequestRoute::ListTools);
    assert_eq!(route_request("tools/call", true), RequestRoute::CallTool);
    assert_eq!(route_request("resources/list", true), RequestRoute::MethodNotFound);
    assert_eq!(route_request("resources/list", false), RequestRoute::NoResponse);
    assert_eq!(method_not_found_message("x/y"), "Method not found: x/y");
}

#[test]
fn test_tool_catalogue_order_and_params() {
    let tools = tool_catalogue();
    let names: Vec<&str> = tools.iter().map(|t| t.kind.name()).collect();
    assert_eq!(
        names,
        vec!["search_codebase", "find_symbols", "get_repo_map", "search_files", "read_snippet", "index_codebase", "index_status"]
    );
    let read = &tools[4];
    let params: Vec<(&str, ParamKind, bool)> = read.params.iter().map(|p| (p.name.as_str(), p.kind, p.required)).collect();
    assert_eq!(
        params,
        vec![("path", ParamKind::Text, true), ("start_line", ParamKind::Integer, true), ("end_line", ParamKind::Integer, true)]
    );
    assert!(tools[5].params.is_empty());
    assert_eq!(tools[3].description, "Fuzzy search for file paths in the workspace ignoring gitignored files.");
}

#[test]
fn test_tool_dispatch() {
    assert_eq!(tool_kind("find_symbols"), Some(ToolKind::FindSymbols));
    assert_eq!(tool_kind("index_status"), Some(ToolKind::IndexStatus));
    assert_eq!(tool_kind("Find_Symbols"), None);
    assert_eq!(unknown_tool_message("nope"), "Unknown tool: nope");
}

#[test]
fn test_tool_arguments() {
    assert_eq!(search_codebase_args(Some("auth"), Some(3)), Ok(("auth".to_string(), Some(3))));
    assert_eq!(search_codebase_args(Some("auth"), None), Ok(("auth".to_string(), None)));
    assert_eq!(search_codebase_args(Some("  \t"), None), Err("Missing required parameter: query".to_string()));
    assert_eq!(search_codebase_args(None, Some(1)), Err("Missing required parameter: query".to_string()));
    assert_eq!(find_symbols_args(Some("Idx"), None), Ok(("Idx".to_string(), 15)));
    assert_eq!(find_symbols_args(Some(" "), Some(2)), Err("Missing required parameter: symbol".to_string()));
    assert_eq!(repo_map_budget(None), 4000);
    assert_eq!(repo_map_budget(Some(10)), 10);
    assert_eq!(search_files_args(Some("Src/Main"), None), Ok(("src/main".to_string(), 20)));
    assert_eq!(search_files_args(None, None), Err("Missing required parameter: pattern".to_string()));
    assert_eq!(read_snippet_args(Some("a.rs"), Some(1), Some(2)), Ok(("a.rs".to_string(), 1, 2)));
    assert_eq!(read_snippet_args(None, None, None), Err("Missing required parameter: path".to_string()));
    assert_eq!(read_snippet_args(Some("a"), None, Some(2)), Err("Missing required parameter: start_line".to_string()));
    assert_eq!(read_snippet_args(Some("a"), Some(1), None), Err("Missing required parameter: end_line".to_string()));
}

#[test]
fn test_format_snippet() {
    let text = "alpha\nbeta\r\ngamma\n";
    assert_eq!(format_snippet(text, 2, 3), Ok("   2 | beta\n   3 | gamma\n".to_string()));
    assert_eq!(format_snippet(text, 0, 1), Ok("   1 | alpha\n".to_string()));
    assert_eq!(format_snippet(text, 3, 99), Ok("   3 | gamma\n".to_string()));
    assert_eq!(
        format_snippet(text, 4, 5),
        Err("Invalid line range 4-5 for file with 3 lines".to_string())
    );
    assert_eq!(
        format_snippet(text, 3, 2),
        Err("Invalid line range 3-2 for file with 3 lines".to_string())
    );
    let mut long = String::new();
    for i in 1..=12000 {
        long.push_str(&format!("l{}\n", i));
    }
    assert_eq!(format_snippet(&long, 12000, 12000), Ok("12000 | l12000\n".to_string()));
    assert_eq!(format_snippet(&long, 99, 99), Ok("  99 | l99\n".to_string()));
}
