use offcode::ansi::strip_ansi;
use offcode::html::{extract_attr, html_text, parse_ddg_html, percent_decode, strip_html, tag_effects};
use offcode::models::{caps_from_list, format_model_listing, format_size, model_listing_text, ModelCaps, ModelInfo};
use offcode::config::default_yolo;

#[test]
fn sizes_in_bytes_megabytes_and_gigabytes() {
    assert_eq!(format_size(0), "0 B");
    assert_eq!(format_size(1023), "1023 B");
    assert_eq!(format_size(1048575), "1048575 B");
    assert_eq!(format_size(1048576), "1 MB");
    assert_eq!(format_size(1572864), "2 MB");
    assert_eq!(format_size(2621440), "2 MB");
    assert_eq!(format_size(1073741824), "1.0 GB");
    assert_eq!(format_size(1610612736), "1.5 GB");
    assert_eq!(format_size(4661224676), "4.3 GB");
}

#[test]
fn model_listing_rows() {
    let models = vec![
        ModelInfo { name: "llama3:8b".to_string(), size: 4661224676 },
        ModelInfo { name: "qwen3:4b".to_string(), size: 2_600_000_000 },
    ];
    let caps = vec![
        ModelCaps { tools: true, thinking: true, vision: false },
        ModelCaps { tools: false, thinking: false, vision: true },
    ];
    let rows = format_model_listing(&models, &caps, "qwen3:4b");
    assert_eq!(rows.len(), 2);
    assert_eq!(rows[0].0, format!("  {:<20}  {:>10}  {} {} {}", "llama3:8b", "4.3 GB", "\u{1f6e0} ", "\u{1f9e0}", "  "));
    assert!(!rows[0].1);
    assert_eq!(rows[1].0, format!("\u{25cf} {:<20}  {:>10}  {} {} {}", "qwen3:4b", "2.4 GB", "  ", "  ", "\u{1f441} "));
    assert!(rows[1].1);
    let text = model_listing_text(&rows, "qwen3:4b");
    assert_eq!(text, format!("{}\n{}  \u{2190} current\nselected: qwen3:4b", rows[0].0, rows[1].0));
}

#[test]
fn listing_pads_to_the_longest_name() {
    let models = vec![ModelInfo { name: "a-very-long-model-name:latest".to_string(), size: 5 }];
    let caps = vec![ModelCaps::default()];
    let rows = format_model_listing(&models, &caps, "x");
    assert_eq!(rows[0].0, format!("  {:<w$}  {:>10}  {} {} {}", "a-very-long-model-name:latest", "5 B", "  ", "  ", "  ", w = 29));
    let none = format_model_listing(&models, &[], "x");
    assert!(none.is_empty());
}

#[test]
fn capabilities_from_names() {
    let c = caps_from_list(&vec!["completion".to_string(), "vision".to_string(), "tools".to_string()]);
    assert!(c.tools && c.vision && !c.thinking);
    let d = caps_from_list(&vec![]);
    assert!(!d.tools && !d.vision && !d.thinking);
}

#[test]
fn ansi_sequences_are_removed() {
    assert_eq!(strip_ansi("\x1b[31mred\x1b[0m plain"), "red plain");
    assert_eq!(strip_ansi("no escapes"), "no escapes");
    let once = strip_ansi("\x1b]0;title\x07x\x1b[1;2Hy");
    assert_eq!(strip_ansi(&once), once);
}

#[test]
fn percent_decoding() {
    assert_eq!(percent_decode("a%20b+c"), "a b c");
    assert_eq!(percent_decode("https%3A%2F%2Fa.com%2F"), "https://a.com/");
    assert_eq!(percent_decode("%zzok"), "ok");
    assert_eq!(percent_decode("%4"), "@");
    assert_eq!(percent_decode("plain"), "plain");
}

#[test]
fn html_fragments_as_text() {
    assert_eq!(html_text("<b>Hi</b> &amp; bye "), "Hi & bye");
    assert_eq!(html_text("x &foo; y"), "x &foo; y");
    assert_eq!(html_text("  plain  "), "plain");
    assert_eq!(html_text("&lt;tag&gt; &quot;q&quot; &apos;a&apos;&nbsp;"), "<tag> \"q\" 'a'");
}

#[test]
fn attributes_of_a_tag() {
    assert_eq!(extract_attr("<a href=\"//example.com/x\">", "href"), Some("https://example.com/x".to_string()));
    assert_eq!(
        extract_attr("<a href=\"//duckduckgo.com/l/?uddg=https%3A%2F%2Fa.com%2F&rut=x\">", "href"),
        Some("https://a.com/".to_string())
    );
    assert_eq!(extract_attr("<a class=\"c\">", "href"), None);
    assert_eq!(extract_attr("<a href=\"https://b.org\">", "href"), Some("https://b.org".to_string()));
}

#[test]
fn search_results_page() {
    let mut html = String::from(
        "<a class=\"result__a\" href=\"https://example.com\">Example &amp; Co</a><a class=\"result__snippet\" href=\"x\">A <b>snippet</b></a>",
    );
    html.push_str(&" ".repeat(2000));
    assert_eq!(parse_ddg_html(&html, 5), "Example & Co\nhttps://example.com\nA snippet");
    let short = "<a class=\"result__a\" href=\"https://example.com\">Example</a>";
    assert_eq!(parse_ddg_html(short, 5), "Example\nhttps://example.com");
    assert_eq!(parse_ddg_html("<html>nothing</html>", 5), "No results found.");
    assert_eq!(parse_ddg_html(short, 0), "No results found.");
}

#[test]
fn pages_as_plain_text() {
    assert_eq!(
        strip_html("<p>Hello &amp; world</p><script>var x;</script><div>Next</div>"),
        "Hello & world\nNext\n"
    );
    assert_eq!(strip_html("a<BR>b"), "a\nb\n");
    assert_eq!(strip_html("x\n\n\n\ny"), "x\n\ny\n");
    assert_eq!(strip_html("<style>p{}</style>ok"), "ok\n");
}

#[test]
fn yolo_is_off_by_default() {
    assert!(!default_yolo());
}

#[test]
fn percent_decoding_reads_utf8() {
    assert_eq!(percent_decode("%C3%A9"), "\u{e9}");
    assert_eq!(percent_decode("caf%C3%A9+%E2%82%AC"), "caf\u{e9} \u{20ac}");
    assert_eq!(percent_decode("%FF"), "\u{fffd}");
    assert_eq!(percent_decode("a%C3"), "a\u{fffd}");
    assert_eq!(percent_decode("\u{e9}t\u{e9}"), "\u{e9}t\u{e9}");
}

#[test]
fn redirect_to_a_non_ascii_address() {
    assert_eq!(
        extract_attr("<a href=\"//duckduckgo.com/l/?uddg=https%3A%2F%2Fex.com%2F%C3%A9&amp;rut=1\">", "href"),
        Some("https://ex.com/\u{e9}".to_string())
    );
}

#[test]
fn what_a_tag_does() {
    assert_eq!(tag_effects("</p>"), (true, false));
    assert_eq!(tag_effects("<br/>"), (true, false));
    assert_eq!(tag_effects("</h2>"), (true, false));
    assert_eq!(tag_effects("<script type=\"x\">"), (false, true));
    assert_eq!(tag_effects("<style>"), (false, true));
    assert_eq!(tag_effects("</script>"), (false, false));
    assert_eq!(tag_effects("<div>"), (false, false));
    assert_eq!(tag_effects("<P>"), (false, false));
}

#[test]
fn stripping_escapes_only_removes() {
    let input = "a\x1b[31mb\x1b]0;t\x07c";
    let out = strip_ansi(input);
    assert_eq!(out, "abc");
    let mut rest = input.chars();
    for c in out.chars() {
        assert!(rest.any(|d| d == c));
    }
}
