use find_git_dirs::models::{
    get_encoding_for_model, get_valid_encodings, get_valid_models, UnsupportedEncodingError,
};

#[test]
fn valid_models_sorted() {
    let m = get_valid_models();
    assert_eq!(m.len(), 40);
    assert_eq!(m[0], "ada");
    assert!(m.contains(&"gpt-4o"));
    let mut sorted = m.clone();
    sorted.sort();
    assert_eq!(sorted, m);
}

#[test]
fn valid_encodings_unique_sorted() {
    assert_eq!(
        get_valid_encodings(),
        vec!["cl100k_base", "gpt2", "o200k_base", "p50k_base", "p50k_edit", "r50k_base"]
    );
}

#[test]
fn encoding_for_known_and_unknown_models() {
    assert_eq!(get_encoding_for_model("gpt-4o"), Ok("o200k_base".to_string()));
    assert_eq!(get_encoding_for_model("gpt-4"), Ok("cl100k_base".to_string()));
    assert_eq!(get_encoding_for_model("text-davinci-edit-001"), Ok("p50k_edit".to_string()));
    assert_eq!(get_encoding_for_model("gpt2"), Ok("gpt2".to_string()));
    assert_eq!(get_encoding_for_model("nope"), Err("Invalid model: nope".to_string()));
}

#[test]
fn unsupported_encoding_error_message() {
    let e = UnsupportedEncodingError::new("bad".to_string());
    assert_eq!(e.to_string(), "bad");
    assert_eq!(e.message, "bad");
}
