use mixtape::tools::fetch::{
    default_max_length, default_timeout, default_user_agent, parse_fetch_header,
};

#[test]
fn test_default_max_length() {
    assert_eq!(default_max_length(), Some(5000));
}

#[test]
fn test_default_user_agent() {
    let ua = default_user_agent();
    assert!(ua.contains("mixtape"));
}

#[test]
fn fetch_tool_test_default_timeout() {
    assert_eq!(default_timeout(), 30);
}

#[test]
fn test_parse_fetch_header_complete() {
    let output = "URL: https://example.com\nTitle: Test Page\nContent Length: 1000 characters\nShowing: characters 0-500 (truncated)\n\n---\n\nThis is the content.";
    let (metadata, content) = parse_fetch_header(output);

    assert_eq!(metadata.len(), 4);
    assert_eq!(metadata[0], ("URL", "https://example.com"));
    assert_eq!(metadata[1], ("Title", "Test Page"));
    assert_eq!(metadata[2], ("Content Length", "1000 characters"));
    assert_eq!(metadata[3], ("Showing", "characters 0-500 (truncated)"));
    assert!(content.contains("This is the content"));
}

#[test]
fn test_parse_fetch_header_no_separator() {
    let output = "Just plain content without headers";
    let (metadata, content) = parse_fetch_header(output);

    assert!(metadata.is_empty());
    assert_eq!(content, output);
}

#[test]
fn test_parse_fetch_header_with_metadata_no_separator() {
    let output = "URL: https://example.com\nTitle: Test";
    let (metadata, content) = parse_fetch_header(output);

    assert_eq!(metadata.len(), 2);
    assert_eq!(metadata[0], ("URL", "https://example.com"));
    assert!(content.contains("URL:"));
}

#[test]
fn test_parse_fetch_header_minimal() {
    let output = "URL: https://example.com\n\n---\n\nContent";
    let (metadata, content) = parse_fetch_header(output);

    assert_eq!(metadata.len(), 1);
    assert_eq!(metadata[0], ("URL", "https://example.com"));
    assert!(content.contains("Content"));
}

#[test]
fn test_parse_fetch_header_empty() {
    let output = "";
    let (metadata, content) = parse_fetch_header(output);

    assert!(metadata.is_empty());
    assert_eq!(content, "");
}

#[test]
fn test_parse_fetch_header_no_content_after_separator() {
    let output = "URL: https://example.com\n---";
    let (metadata, content) = parse_fetch_header(output);

    assert_eq!(metadata.len(), 1);
    assert!(content.contains("URL:"));
}

#[test]
fn test_parse_fetch_header_content_after_separator() {
    let output = "URL: https://example.com\n---\nBody content here";
    let (metadata, content) = parse_fetch_header(output);

    assert_eq!(metadata.len(), 1);
    assert_eq!(metadata[0], ("URL", "https://example.com"));
    assert_eq!(content, "Body content here");
    assert!(!content.contains("URL:"));
}

use mixtape::tools::fetch::{
    fetch_result, has_list_items, http_error_message, paginate, parse_fetch_url, robots_gate, robots_text_fits, robots_url, tag_names_fit,
    robots_verdict, FetchInput, FetchTool, RobotsFetch,
};

#[test]
fn fetch_tool_test_default() {
    let tool: FetchTool = Default::default();
    assert_eq!(tool.name(), "fetch");
}

#[test]
fn fetch_tool_test_tool_name() {
    let tool = FetchTool::new();
    assert_eq!(tool.name(), "fetch");
}

#[test]
fn fetch_tool_test_tool_description() {
    let tool = FetchTool::new();
    assert!(!tool.description().is_empty());
    assert!(tool.description().contains("Fetch"));
}

#[test]
fn test_format_output_plain_no_metadata() {
    let tool = FetchTool::new();
    let formatted = tool.format_output_plain("Plain content without headers");
    assert_eq!(formatted, "Plain content without headers");
}

#[test]
fn test_format_output_plain_with_metadata() {
    let tool = FetchTool::new();
    let formatted = tool.format_output_plain(
        "URL: https://example.com\nTitle: Test\nContent Length: 100 characters\n\n---\n\nContent here",
    );
    assert!(formatted.contains("─"));
    assert!(formatted.contains("[>]") || formatted.contains("[#]") || formatted.contains("[=]"));
    assert!(formatted.contains("Content here"));
}

#[test]
fn test_format_output_plain_icons() {
    let tool = FetchTool::new();
    let formatted = tool.format_output_plain(
        "URL: https://example.com\nTitle: Test Title\nContent Length: 500 characters\nShowing: 0-100\n\n---\n\nBody",
    );
    assert!(formatted.contains("[>]")); // URL
    assert!(formatted.contains("[#]")); // Title
    assert!(formatted.contains("[=]")); // Content Length
    assert!(formatted.contains("[~]")); // Showing
}

#[test]
fn test_format_output_ansi_no_metadata() {
    let tool = FetchTool::new();
    assert_eq!(tool.format_output_ansi("Plain content"), "Plain content");
}

#[test]
fn test_format_output_ansi_with_metadata() {
    let tool = FetchTool::new();
    let formatted = tool.format_output_ansi("URL: https://example.com\nTitle: Test\n\n---\n\nContent");
    assert!(formatted.contains("\x1b["));
    assert!(formatted.contains("\x1b[2m"));
}

#[test]
fn fetch_tool_test_format_output_ansi_colors() {
    let tool = FetchTool::new();
    let formatted = tool.format_output_ansi(
        "URL: https://example.com\nTitle: Test\nContent Length: 100 characters\nShowing: 0-50\n\n---\n\nBody",
    );
    assert!(formatted.contains("\x1b[34m"));
    assert!(formatted.contains("\x1b[1m"));
    assert!(formatted.contains("\x1b[32m"));
    assert!(formatted.contains("\x1b[36m"));
}

#[test]
fn test_format_output_markdown_no_metadata() {
    let tool = FetchTool::new();
    assert_eq!(tool.format_output_markdown("Plain content"), "Plain content");
}

#[test]
fn test_format_output_markdown_with_title() {
    let tool = FetchTool::new();
    let formatted = tool.format_output_markdown("URL: https://example.com\nTitle: My Page Title\n\n---\n\nContent");
    assert!(formatted.contains("## My Page Title"));
}

#[test]
fn test_format_output_markdown_metadata_as_list() {
    let tool = FetchTool::new();
    let formatted = tool.format_output_markdown(
        "URL: https://example.com\nTitle: Test\nContent Length: 500 characters\n\n---\n\nBody",
    );
    assert!(formatted.contains("- **URL**: https://example.com"));
    assert!(formatted.contains("- **Content Length**: 500 characters"));
    assert!(!formatted.contains("- **Title**"));
}

#[test]
fn test_format_output_markdown_separator() {
    let tool = FetchTool::new();
    let formatted = tool.format_output_markdown("URL: https://example.com\n\n---\n\nBody content");
    assert!(formatted.contains("---"));
    assert!(formatted.contains("Body content"));
}

#[test]
fn test_paginate_content_start_beyond_length() {
    let tool = FetchTool::new();
    let (result, truncated, total) = tool.paginate_content("Short".to_string(), Some(100), Some(10));
    assert_eq!(result, "");
    assert!(!truncated);
    assert_eq!(total, 5);
}

#[test]
fn test_paginate_content_exact_length() {
    let tool = FetchTool::new();
    let (result, truncated, total) = tool.paginate_content("12345".to_string(), Some(0), Some(5));
    assert_eq!(result, "12345");
    assert!(!truncated);
    assert_eq!(total, 5);
}

#[test]
fn test_extract_content() {
    let tool = FetchTool::new();
    let html = r#"
            <html>
                <head><title>Test Page</title></head>
                <body>
                    <nav>Navigation</nav>
                    <article>
                        <h1>Main Content</h1>
                        <p>This is the article content.</p>
                    </article>
                    <footer>Footer</footer>
                </body>
            </html>
        "#;

    let (title, content) = tool.extract_content(html, "https://example.com/test");
    assert_eq!(title, Some("Main Content".to_string()));
    assert!(content.contains("This is the article content"));
    assert!(!content.contains("Navigation") || content.len() < html.len());
}

#[test]
fn test_paginate_content() {
    let tool = FetchTool::new();
    let content = "0123456789".to_string();

    let (result, truncated, total) = tool.paginate_content(content.clone(), None, None);
    assert_eq!(result, "0123456789");
    assert!(!truncated);
    assert_eq!(total, 10);

    let (result, truncated, total) = tool.paginate_content(content.clone(), Some(2), Some(5));
    assert_eq!(result, "23456");
    assert!(truncated);
    assert_eq!(total, 10);

    let (result, truncated, total) = tool.paginate_content(content.clone(), Some(5), Some(10));
    assert_eq!(result, "56789");
    assert!(!truncated);
    assert_eq!(total, 10);
}

#[test]
fn test_html_to_markdown() {
    let tool = FetchTool::new();
    let html = "<h1>Title</h1><p>Paragraph with <strong>bold</strong> text.</p>";
    let markdown = tool.html_to_markdown(html);

    assert!(markdown.contains("Title"));
    assert!(markdown.contains("Paragraph"));
    assert!(markdown.contains("bold"));
}

#[test]
fn pages_put_together_give_the_rest() {
    let content = "héllo wörld, ünïcode";
    let (a, _, _) = paginate(content, Some(0), Some(6));
    let (b, _, _) = paginate(content, Some(6), None);
    assert_eq!(format!("{}{}", a, b), content);
}

#[test]
fn fetch_result_reads_back() {
    let text = fetch_result("https://example.com", &Some("  My Page \n".to_string()), Some(0), "0123", true, 10);
    assert_eq!(
        text,
        "URL: https://example.com\nTitle: My Page\nContent Length: 10 characters\nShowing: characters 0-4 (truncated)\n\n---\n\n0123"
    );
    let (fields, content) = parse_fetch_header(&text);
    assert_eq!(fields.len(), 4);
    assert_eq!(fields[1], ("Title", "My Page"));
    assert_eq!(content, "0123");
}

#[test]
fn robots_decisions() {
    let url = parse_fetch_url("https://example.com/private/page").unwrap();
    assert_eq!(robots_url(&url).unwrap(), "https://example.com/robots.txt");
    assert!(parse_fetch_url("not a url").unwrap_err().starts_with("Invalid URL: "));
    let agent = "mixtape-bot";
    assert_eq!(robots_verdict(&RobotsFetch::Unreachable, agent, &url), Ok(true));
    assert_eq!(robots_verdict(&RobotsFetch::Unsuccessful, agent, &url), Ok(true));
    let body = RobotsFetch::Body("User-agent: *\nDisallow: /private/\n".to_string());
    assert_eq!(robots_verdict(&body, agent, &url), Ok(false));
    let other = parse_fetch_url("https://example.com/public").unwrap();
    assert_eq!(robots_verdict(&body, agent, &other), Ok(true));
    assert_eq!(
        robots_verdict(&RobotsFetch::Unreadable("eof".to_string()), agent, &url),
        Err("Failed to read robots.txt: eof".to_string())
    );
    let input = FetchInput {
        url: "https://example.com/private/page".to_string(),
        max_length: Some(5000),
        start_index: None,
        raw: false,
        force: false,
        user_agent: agent.to_string(),
        timeout_seconds: 30,
    };
    assert_eq!(
        robots_gate(&input, &Ok(false)),
        Err("Access to https://example.com/private/page is disallowed by robots.txt for user-agent 'mixtape-bot'".to_string())
    );
    assert_eq!(robots_gate(&input, &Err("x".to_string())), Err("Robots.txt check failed: x".to_string()));
    assert_eq!(http_error_message(404, Some("Not Found")), "HTTP error: 404 Not Found");
    assert_eq!(http_error_message(599, None), "HTTP error: 599 Unknown");
}

#[test]
fn pages_count_characters() {
    let tool = FetchTool::new();
    let (result, truncated, total) = tool.paginate_content("héllo".to_string(), Some(0), Some(2));
    assert_eq!(result, "hé");
    assert!(truncated);
    assert_eq!(total, 5);
    let (result, truncated, total) = tool.paginate_content("héllo".to_string(), Some(2), Some(10));
    assert_eq!(result, "llo");
    assert!(!truncated);
    assert_eq!(total, 5);
}

#[test]
fn list_item_tags_are_found() {
    assert!(has_list_items("<p></p><b><li></li>"));
    assert!(has_list_items("<UL><LI>x</LI></UL>"));
    assert!(!has_list_items("<p>line</p><a href=x>l</a>"));
    assert!(!has_list_items("plain text"));
}

#[test]
fn robots_texts_that_fit() {
    assert!(robots_text_fits("User-agent: *\nDisallow: /private\n"));
    let long_line = format!("{}€\n", "a".repeat(16663));
    assert!(!robots_text_fits(&long_line));
    let long_ascii = format!("{}\n", "a".repeat(20000));
    assert!(robots_text_fits(&long_ascii));
    let wide_head = format!("# €{}\nUser-agent: *\nDisallow: /private/\n", "a".repeat(20000));
    assert!(robots_text_fits(&wide_head));
    let url = parse_fetch_url("https://example.com/private/page").unwrap();
    assert_eq!(robots_verdict(&RobotsFetch::Body(wide_head), "mixtape-bot", &url), Ok(false));
    let wide_tail = format!("{}ü", "a".repeat(16700));
    assert!(!robots_text_fits(&wide_tail));
}

#[test]
fn tag_names_that_read_as_selectors() {
    assert!(tag_names_fit("<html><body><my-el data-x=\"<\"><p>text</p></my-el></body></html>"));
    assert!(tag_names_fit("a < b and 3<4 </a> <!-- x --> <?x?>"));
    assert!(tag_names_fit("<H1>Title</H1><br/>"));
    assert!(!tag_names_fit("<a[><p>text</p></a[>"));
    assert!(!tag_names_fit("<svg:rect>"));
    assert!(!tag_names_fit("<a<b>"));
}
