use find_git_dirs::output::{chars_of, escape_json_path, render_json, render_plain, LiveEncoder};

fn s(x: &str) -> String {
    x.to_string()
}

#[test]
fn escapes_backslash_and_quote_only() {
    assert_eq!(escape_json_path("/a/b"), "/a/b");
    assert_eq!(escape_json_path("C:\\x"), "C:\\\\x");
    assert_eq!(escape_json_path("a\"b"), "a\\\"b");
    assert_eq!(escape_json_path("tab\there"), "tab\there");
    assert_eq!(escape_json_path(""), "");
}

#[test]
fn chars_of_keeps_every_character() {
    assert_eq!(chars_of("añb"), vec!['a', 'ñ', 'b']);
}

#[test]
fn json_document_of_paths() {
    assert_eq!(render_json(&vec![]), "[]\n");
    assert_eq!(render_json(&vec![s("/a/.git")]), "[\"/a/.git\"]\n");
    assert_eq!(
        render_json(&vec![s("/a/.git"), s("/b\\c/.git")]),
        "[\"/a/.git\",\"/b\\\\c/.git\"]\n"
    );
}

#[test]
fn plain_document_of_paths() {
    assert_eq!(render_plain(&vec![]), "");
    assert_eq!(render_plain(&vec![s("/a/.git"), s("/b/.git")]), "/a/.git\n/b/.git\n");
}

#[test]
fn live_json_with_matches() {
    let mut enc = LiveEncoder::new(true);
    let mut out = enc.opening();
    out.push_str(&enc.record("/a/.git"));
    out.push_str(&enc.record("/b/\"q\"/.git"));
    out.push_str(&enc.closing());
    assert_eq!(out, "[\n  \"/a/.git\",\n  \"/b/\\\"q\\\"/.git\"\n]\n");
}

#[test]
fn live_json_without_matches() {
    let enc = LiveEncoder::new(true);
    let out = enc.opening() + &enc.closing();
    assert_eq!(out, "[]\n");
}

#[test]
fn live_json_cut_after_each_record_is_an_array() {
    let paths = ["/a/.git", "/b/.git", "/c/.git"];
    for n in 0..=paths.len() {
        let mut enc = LiveEncoder::new(true);
        let mut out = enc.opening();
        for p in &paths[..n] {
            out.push_str(&enc.record(p));
        }
        out.push_str(&enc.closing());
        let inner: Vec<String> = paths[..n].iter().map(|p| format!("\n  \"{}\"", p)).collect();
        let expected = if n == 0 {
            s("[]\n")
        } else {
            format!("[{}\n]\n", inner.join(","))
        };
        assert_eq!(out, expected);
        assert!(out.starts_with('['));
        assert!(out.trim_end().ends_with(']'));
        assert_eq!(out.matches(',').count(), n.saturating_sub(1));
    }
}

#[test]
fn live_plain_lines() {
    let mut enc = LiveEncoder::new(false);
    let mut out = enc.opening();
    out.push_str(&enc.record("/a/.git"));
    out.push_str(&enc.record("/b/.git"));
    out.push_str(&enc.closing());
    assert_eq!(out, "/a/.git\n/b/.git\n");
}
