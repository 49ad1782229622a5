use base64::Engine;
use uess::compile::{
    answer_reply, compile_endpoint, compile_output, compile_reply, error_reply, extract_text,
    godbolt_url, lookup, parse_request, supported_tags, utf8_len, CompileError, CompileReply,
    GodboltAnswer,
};

const SUPPORTED: &str = "c, c++, cpp, rust, go, python, java, haskell, d, pascal, fortran, ada, nim, zig, assembly, asm, swift, kotlin, csharp, c#, fsharp, f#";

#[test]
fn languages_resolve_to_compilers() {
    assert_eq!(lookup("c"), Some(("c", "cg141")));
    assert_eq!(lookup("cpp"), Some(("c++", "g141")));
    assert_eq!(lookup("c++"), lookup("cpp"));
    assert_eq!(lookup("asm"), Some(("assembly", "nasm2_16_01")));
    assert_eq!(lookup("c#"), lookup("csharp"));
    assert_eq!(lookup("f#"), Some(("fsharp", "dotnet9fsharpc")));
    assert_eq!(lookup("Rust"), None);
    assert_eq!(lookup("cobol"), None);
    for tag in SUPPORTED.split(", ") {
        assert!(lookup(tag).is_some(), "{}", tag);
    }
}

#[test]
fn supported_tags_are_listed() {
    assert_eq!(supported_tags(), SUPPORTED);
}

fn request(content: &str) -> (String, String, String) {
    match parse_request(content) {
        Ok(r) => (r.lang_id.to_string(), r.compiler_id.to_string(), r.source),
        Err(e) => panic!("refused: {}", error_reply(&e)),
    }
}

fn refusal(content: &str) -> String {
    match parse_request(content) {
        Ok(_) => panic!("accepted {:?}", content),
        Err(e) => error_reply(&e),
    }
}

#[test]
fn code_blocks_are_read() {
    assert_eq!(
        request("please run\n```Rust \nfn main() {}\n```\nthanks"),
        ("rust".to_string(), "r1820".to_string(), "fn main() {}".to_string())
    );
    assert_eq!(
        request("```cpp\n  int main() { return 0; }  \n```"),
        ("c++".to_string(), "g141".to_string(), "int main() { return 0; }".to_string())
    );
    assert_eq!(
        request("```python\nprint(1)\n```\n```c\nint x;\n```"),
        ("python".to_string(), "python312".to_string(), "print(1)".to_string())
    );
}

#[test]
fn missing_parts_are_refused() {
    assert_eq!(
        refusal("no code here"),
        "Wrap your code in a fenced code block with the language.\nExample:\n\\`\\`\\`rust\nfn main() {}\n\\`\\`\\`"
    );
    assert_eq!(refusal("```rust\nfn main() {}"), "Couldn't find closing ` ``` `.");
    assert_eq!(refusal("```\nfn main() {}\n```"), "Specify a language after the opening backticks, e.g. ` ```rust `.");
    assert_eq!(refusal("```rust\n   \n```"), "Code block is empty.");
    assert_eq!(refusal("```rust```"), "Code block is empty.");
    assert_eq!(refusal("```py\n```python\nprint(1)\n```"), "Code block is empty.");
    assert_eq!(refusal("```COBOL\nDISPLAY 'X'.\n```"), format!("Unsupported language `cobol`.\nSupported: {}", SUPPORTED));
}

#[test]
fn godbolt_errors_are_reported() {
    assert_eq!(error_reply(&CompileError::RequestFailed("timed out".to_string())), "Godbolt request failed: timed out");
    assert_eq!(error_reply(&CompileError::BadResponse("EOF".to_string())), "Failed to parse Godbolt response: EOF");
}

#[test]
fn endpoint_names_the_compiler() {
    assert_eq!(compile_endpoint("r1820"), "https://godbolt.org/api/compiler/r1820/compile");
}

#[test]
fn links_encode_the_client_state() {
    assert_eq!(
        godbolt_url("c", "cg141", "int main() {}"),
        "https://godbolt.org/clientstate/eyJzZXNzaW9ucyI6W3siaWQiOjEsImxhbmd1YWdlIjoiYyIsInNvdXJjZSI6ImludCBtYWluKCkge30iLCJjb21waWxlcnMiOltdLCJleGVjdXRvcnMiOlt7ImNvbXBpbGVyIjp7ImlkIjoiY2cxNDEiLCJsaWJzIjpbXSwib3B0aW9ucyI6IiJ9LCJzdGRpbiI6IiIsImFyZ3MiOiIifV19XX0="
    );
    assert_eq!(
        godbolt_url("c", "cg141", "???"),
        "https://godbolt.org/clientstate/eyJzZXNzaW9ucyI6W3siaWQiOjEsImxhbmd1YWdlIjoiYyIsInNvdXJjZSI6Ij8%2FPyIsImNvbXBpbGVycyI6W10sImV4ZWN1dG9ycyI6W3siY29tcGlsZXIiOnsiaWQiOiJjZzE0MSIsImxpYnMiOltdLCJvcHRpb25zIjoiIn0sInN0ZGluIjoiIiwiYXJncyI6IiJ9XX1dfQ=="
    );
    assert_eq!(
        godbolt_url("c", "cg141", "puts(\"hi\");\nreturn 0;"),
        "https://godbolt.org/clientstate/eyJzZXNzaW9ucyI6W3siaWQiOjEsImxhbmd1YWdlIjoiYyIsInNvdXJjZSI6InB1dHMoXCJoaVwiKTtcbnJldHVybiAwOyIsImNvbXBpbGVycyI6W10sImV4ZWN1dG9ycyI6W3siY29tcGlsZXIiOnsiaWQiOiJjZzE0MSIsImxpYnMiOltdLCJvcHRpb25zIjoiIn0sInN0ZGluIjoiIiwiYXJncyI6IiJ9XX1dfQ=="
    );
}

#[test]
fn escaped_links_hold_no_slash_after_the_prefix() {
    for source in ["???", "a???", "int x = 1 >> 1; // ??", "fn main() {}"] {
        let url = godbolt_url("c", "cg141", source);
        let rest = url.strip_prefix("https://godbolt.org/clientstate/").unwrap();
        assert!(!rest.contains('/'), "{}", url);
    }
}

fn texts(items: &[Option<&str>]) -> Vec<Option<String>> {
    items.iter().map(|t| t.map(|s| s.to_string())).collect()
}

#[test]
fn stream_texts_are_joined() {
    assert_eq!(extract_text(&texts(&[Some("a"), None, Some("b")])), "a\nb");
    assert_eq!(extract_text(&texts(&[])), "");
    assert_eq!(extract_text(&texts(&[None])), "");
}

#[test]
fn output_lists_the_non_empty_streams() {
    let out = compile_output(&texts(&[Some("warning: x")]), &texts(&[Some("1"), Some("2")]), &texts(&[Some("oops")]), Some(0), None);
    assert_eq!(out, "[build errors]\nwarning: x\n\n1\n2\n\n[stderr]\noops");
    let out = compile_output(&texts(&[]), &texts(&[Some("hi")]), &texts(&[]), None, None);
    assert_eq!(out, "hi");
}

#[test]
fn silent_programs_report_their_exit_code() {
    assert_eq!(compile_output(&texts(&[]), &texts(&[]), &texts(&[]), Some(3), Some(5)), "(no output, exit code 3)");
    assert_eq!(compile_output(&texts(&[]), &texts(&[]), &texts(&[]), None, Some(-1)), "(no output, exit code -1)");
    assert_eq!(compile_output(&texts(&[]), &texts(&[None]), &texts(&[]), None, None), "(no output, exit code ?)");
}

#[test]
fn short_output_is_sent_inline() {
    match compile_reply("hello", "https://x") {
        CompileReply::Inline(text) => {
            assert_eq!(text, "```\nhello\n```\n[view on godbolt](<https://x>)");
            assert!(text.len() <= 1990);
        }
        _ => panic!("expected an inline reply"),
    }
}

#[test]
fn long_output_is_attached() {
    let url = "https://x";
    let link_len = "\n[view on godbolt](<https://x>)".len();
    let fits = "a".repeat(1990 - 8 - link_len);
    assert!(matches!(compile_reply(&fits, url), CompileReply::Inline(ref t) if t.len() == 1990));
    let over = "a".repeat(1990 - 8 - link_len + 1);
    match compile_reply(&over, url) {
        CompileReply::Attachment { message, file } => {
            assert_eq!(message, "[view on godbolt](<https://x>)");
            assert_eq!(file, over);
        }
        _ => panic!("expected an attachment"),
    }
    let wide = "é".repeat(1000);
    assert!(matches!(compile_reply(&wide, url), CompileReply::Attachment { .. }));
}

fn expected_url(lang: &str, compiler: &str, source: &str) -> String {
    let state = format!(
        r#"{{"sessions":[{{"id":1,"language":"{lang}","source":{src},"compilers":[],"executors":[{{"compiler":{{"id":"{compiler}","libs":[],"options":""}},"stdin":"","args":""}}]}}]}}"#,
        src = serde_json::to_string(source).unwrap(),
    );
    let encoded = base64::engine::general_purpose::STANDARD.encode(state).replace('/', "%2F");
    format!("https://godbolt.org/clientstate/{encoded}")
}

#[test]
fn links_escape_the_source_as_json() {
    for source in [
        "say \"hi\"", "back\\slash", "tab\there", "bell\u{7}", "nul\u{0}", "del\u{7f}",
        "unit\u{1f}", "form\u{c}feed", "back\u{8}space", "cr\r\nlf", "ünïcødé ✓ 🚀", "/*?*/",
    ] {
        assert_eq!(godbolt_url("rust", "r1820", source), expected_url("rust", "r1820", source), "{:?}", source);
    }
}

#[test]
fn byte_lengths_match_std() {
    for s in ["", "abc", "é", "✓", "🚀", "aé✓🚀"] {
        assert_eq!(utf8_len(s), s.len() as u128);
    }
}

#[test]
fn answers_become_replies() {
    let request = parse_request("```c\nint main() { return 3; }\n```").ok().unwrap();
    let answer = GodboltAnswer {
        build_stderr: vec![],
        stdout: vec![Some("hello".to_string()), None],
        stderr: vec![],
        code: None,
        exit_code: Some(3),
    };
    let url = expected_url("c", "cg141", "int main() { return 3; }");
    match answer_reply(&request, &answer) {
        CompileReply::Inline(text) => assert_eq!(text, format!("```\nhello\n```\n[view on godbolt](<{url}>)")),
        _ => panic!("expected an inline reply"),
    }
    let silent = GodboltAnswer { build_stderr: vec![], stdout: vec![], stderr: vec![], code: None, exit_code: Some(3) };
    match answer_reply(&request, &silent) {
        CompileReply::Inline(text) => assert_eq!(text, format!("```\n(no output, exit code 3)\n```\n[view on godbolt](<{url}>)")),
        _ => panic!("expected an inline reply"),
    }
    let loud = GodboltAnswer { build_stderr: vec![], stdout: vec![Some("x".repeat(3000))], stderr: vec![], code: Some(0), exit_code: None };
    match answer_reply(&request, &loud) {
        CompileReply::Attachment { message, file } => {
            assert_eq!(message, format!("[view on godbolt](<{url}>)"));
            assert_eq!(file, "x".repeat(3000));
        }
        _ => panic!("expected an attachment"),
    }
}

#[test]
fn links_decode_to_the_client_state() {
    for source in ["int main() {}", "???", "say \"hi\"\n", "ünï ✓"] {
        let url = godbolt_url("c", "cg141", source);
        let encoded = url.strip_prefix("https://godbolt.org/clientstate/").unwrap();
        assert!(!encoded.contains('/'));
        let bytes = base64::engine::general_purpose::STANDARD.decode(encoded.replace("%2F", "/")).unwrap();
        let state = String::from_utf8(bytes).unwrap();
        let parsed: serde_json::Value = serde_json::from_str(&state).unwrap();
        assert_eq!(parsed["sessions"][0]["source"].as_str(), Some(source));
        assert_eq!(parsed["sessions"][0]["language"].as_str(), Some("c"));
        assert_eq!(parsed["sessions"][0]["executors"][0]["compiler"]["id"].as_str(), Some("cg141"));
    }
}
