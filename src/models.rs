use vstd::prelude::*;
use vstd::string::StringExecFns;

use crate::output::chars_of;
use crate::roots::{sorted_unique, strictly_sorted, strs};

verus! {

/// Each known model name with the name of its token encoding, in ascending
/// order of model name.
pub open spec fn model_table() -> Seq<(Seq<char>, Seq<char>)> {
    seq![
        ("ada"@, "r50k_base"@),
        ("babbage"@, "r50k_base"@),
        ("babbage-002"@, "cl100k_base"@),
        ("code-cushman-001"@, "p50k_base"@),
        ("code-cushman-002"@, "p50k_base"@),
        ("code-davinci-001"@, "p50k_base"@),
        ("code-davinci-002"@, "p50k_base"@),
        ("code-davinci-edit-001"@, "p50k_edit"@),
        ("code-search-ada-code-001"@, "r50k_base"@),
        ("code-search-babbage-code-001"@, "r50k_base"@),
        ("curie"@, "r50k_base"@),
        ("cushman-codex"@, "p50k_base"@),
        ("davinci"@, "r50k_base"@),
        ("davinci-002"@, "cl100k_base"@),
        ("davinci-codex"@, "p50k_base"@),
        ("gpt-2"@, "gpt2"@),
        ("gpt-3.5"@, "cl100k_base"@),
        ("gpt-3.5-turbo"@, "cl100k_base"@),
        ("gpt-35-turbo"@, "cl100k_base"@),
        ("gpt-4"@, "cl100k_base"@),
        ("gpt-4o"@, "o200k_base"@),
        ("gpt2"@, "gpt2"@),
        ("text-ada-001"@, "r50k_base"@),
        ("text-babbage-001"@, "r50k_base"@),
        ("text-curie-001"@, "r50k_base"@),
        ("text-davinci-001"@, "r50k_base"@),
        ("text-davinci-002"@, "p50k_base"@),
        ("text-davinci-003"@, "p50k_base"@),
        ("text-davinci-edit-001"@, "p50k_edit"@),
        ("text-embedding-3-large"@, "cl100k_base"@),
        ("text-embedding-3-small"@, "cl100k_base"@),
        ("text-embedding-ada-002"@, "cl100k_base"@),
        ("text-search-ada-doc-001"@, "r50k_base"@),
        ("text-search-babbage-doc-001"@, "r50k_base"@),
        ("text-search-curie-doc-001"@, "r50k_base"@),
        ("text-search-davinci-doc-001"@, "r50k_base"@),
        ("text-similarity-ada-001"@, "r50k_base"@),
        ("text-similarity-babbage-001"@, "r50k_base"@),
        ("text-similarity-curie-001"@, "r50k_base"@),
        ("text-similarity-davinci-001"@, "r50k_base"@),
    ]
}

/// The encoding of the first entry of `table` for `model`, if any.
pub open spec fn lookup(table: Seq<(Seq<char>, Seq<char>)>, model: Seq<char>) -> Option<Seq<char>>
    decreases table.len(),
{
    if table.len() == 0 {
        None
    } else if table[0].0 == model {
        Some(table[0].1)
    } else {
        lookup(table.drop_first(), model)
    }
}

/// The model table as texts.
fn model_pairs() -> (r: Vec<(&'static str, &'static str)>)
    ensures
        r@.map_values(|p: (&str, &str)| (p.0@, p.1@)) == model_table(),
{
    let r = vec![
        ("ada", "r50k_base"),
        ("babbage", "r50k_base"),
        ("babbage-002", "cl100k_base"),
        ("code-cushman-001", "p50k_base"),
        ("code-cushman-002", "p50k_base"),
        ("code-davinci-001", "p50k_base"),
        ("code-davinci-002", "p50k_base"),
        ("code-davinci-edit-001", "p50k_edit"),
        ("code-search-ada-code-001", "r50k_base"),
        ("code-search-babbage-code-001", "r50k_base"),
        ("curie", "r50k_base"),
        ("cushman-codex", "p50k_base"),
        ("davinci", "r50k_base"),
        ("davinci-002", "cl100k_base"),
        ("davinci-codex", "p50k_base"),
        ("gpt-2", "gpt2"),
        ("gpt-3.5", "cl100k_base"),
        ("gpt-3.5-turbo", "cl100k_base"),
        ("gpt-35-turbo", "cl100k_base"),
        ("gpt-4", "cl100k_base"),
        ("gpt-4o", "o200k_base"),
        ("gpt2", "gpt2"),
        ("text-ada-001", "r50k_base"),
        ("text-babbage-001", "r50k_base"),
        ("text-curie-001", "r50k_base"),
        ("text-davinci-001", "r50k_base"),
        ("text-davinci-002", "p50k_base"),
        ("text-davinci-003", "p50k_base"),
        ("text-davinci-edit-001", "p50k_edit"),
        ("text-embedding-3-large", "cl100k_base"),
        ("text-embedding-3-small", "cl100k_base"),
        ("text-embedding-ada-002", "cl100k_base"),
        ("text-search-ada-doc-001", "r50k_base"),
        ("text-search-babbage-doc-001", "r50k_base"),
        ("text-search-curie-doc-001", "r50k_base"),
        ("text-search-davinci-doc-001", "r50k_base"),
        ("text-similarity-ada-001", "r50k_base"),
        ("text-similarity-babbage-001", "r50k_base"),
        ("text-similarity-curie-001", "r50k_base"),
        ("text-similarity-davinci-001", "r50k_base"),
    ];
    proof {
        assert(r@.map_values(|p: (&str, &str)| (p.0@, p.1@)) =~= model_table());
    }
    r
}


/// Whether `a` and `b` hold the same characters.
fn same_text(a: &str, b: &str) -> (r: bool)
    ensures
        r == (a@ == b@),
{
    let ca = chars_of(a);
    let cb = chars_of(b);
    if ca.len() != cb.len() {
        return false;
    }
    let mut i: usize = 0;
    while i < ca.len()
        invariant
            i <= ca.len(),
            ca.len() == cb.len(),
            ca@ == a@,
            cb@ == b@,
            forall|j: int| 0 <= j < i ==> ca@[j] == cb@[j],
        decreases ca.len() - i,
    {
        if ca[i] != cb[i] {
            proof {
                assert(ca@[i as int] != cb@[i as int]);
            }
            return false;
        }
        i = i + 1;
    }
    proof {
        assert(ca@ =~= cb@);
    }
    true
}

/// The known model names, in ascending order.
pub fn get_valid_models() -> (r: Vec<&'static str>)
    ensures
        strs(r@) == model_table().map_values(|p: (Seq<char>, Seq<char>)| p.0),
{
    let table = model_pairs();
    let mut r: Vec<&'static str> = Vec::new();
    let mut i: usize = 0;
    while i < table.len()
        invariant
            i <= table.len(),
            table@.map_values(|p: (&str, &str)| (p.0@, p.1@)) == model_table(),
            r.len() == i,
            forall|j: int| 0 <= j < i ==> #[trigger] r@[j]@ == model_table()[j].0,
        decreases table.len() - i,
    {
        proof {
            assert(model_table()[i as int] == (table@[i as int].0@, table@[i as int].1@));
        }
        r.push(table[i].0);
        i = i + 1;
    }
    proof {
        assert(strs(r@) =~= model_table().map_values(|p: (Seq<char>, Seq<char>)| p.0));
    }
    r
}

/// The known encoding names, each once, in ascending order.
pub fn get_valid_encodings() -> (r: Vec<&'static str>)
    ensures
        strictly_sorted(strs(r@)),
        forall|e: Seq<char>|
            strs(r@).contains(e) <==> exists|i: int|
                0 <= i < model_table().len() && #[trigger] model_table()[i].1 == e,
{
    let table = model_pairs();
    let mut encodings: Vec<&'static str> = Vec::new();
    let mut keep: Vec<bool> = Vec::new();
    let mut i: usize = 0;
    while i < table.len()
        invariant
            i <= table.len(),
            table@.map_values(|p: (&str, &str)| (p.0@, p.1@)) == model_table(),
            encodings.len() == i,
            keep.len() == i,
            forall|j: int| 0 <= j < i ==> #[trigger] encodings@[j]@ == model_table()[j].1,
            forall|j: int| 0 <= j < i ==> #[trigger] keep@[j],
        decreases table.len() - i,
    {
        proof {
            assert(model_table()[i as int] == (table@[i as int].0@, table@[i as int].1@));
        }
        encodings.push(table[i].1);
        keep.push(true);
        i = i + 1;
    }
    let r = sorted_unique(&encodings, &keep);
    proof {
        assert forall|e: Seq<char>| strs(r@).contains(e) <==> exists|i: int|
            0 <= i < model_table().len() && #[trigger] model_table()[i].1 == e by {
            if strs(r@).contains(e) {
                let j = choose|j: int|
                    0 <= j < encodings.len() && #[trigger] encodings@[j]@ == e && keep@[j];
                assert(model_table()[j].1 == e);
            }
            if exists|i: int| 0 <= i < model_table().len() && #[trigger] model_table()[i].1 == e {
                let j = choose|j: int| 0 <= j < model_table().len() && #[trigger] model_table()[j].1 == e;
                assert(encodings@[j]@ == e && keep@[j]);
            }
        }
    }
    r
}

/// The encoding of a known model, or an error that names the model.
pub fn get_encoding_for_model(model: &str) -> (r: Result<String, String>)
    ensures
        match lookup(model_table(), model@) {
            Some(e) => r matches Ok(s) && s@ == e,
            None => r matches Err(m) && m@ == "Invalid model: "@ + model@,
        },
{
    let table = model_pairs();
    let mut i: usize = 0;
    proof {
        assert(model_table().skip(0) =~= model_table());
    }
    while i < table.len()
        invariant
            i <= table.len(),
            table@.map_values(|p: (&str, &str)| (p.0@, p.1@)) == model_table(),
            lookup(model_table(), model@) == lookup(model_table().skip(i as int), model@),
        decreases table.len() - i,
    {
        proof {
            assert(model_table()[i as int] == (table@[i as int].0@, table@[i as int].1@));
            assert(model_table().skip(i as int)[0] == model_table()[i as int]);
            assert(model_table().skip(i + 1) =~= model_table().skip(i as int).drop_first());
        }
        if same_text(table[i].0, model) {
            return Ok(String::from_str(table[i].1));
        }
        i = i + 1;
    }
    let mut m = String::from_str("Invalid model: ");
    m.append(model);
    Err(m)
}

/// The error of reading a file whose text encoding could not be decoded.
pub struct UnsupportedEncodingError {
    pub message: String,
}

impl UnsupportedEncodingError {
    /// The error with its message.
    pub fn new(message: String) -> (r: UnsupportedEncodingError)
        ensures
            r.message@ == message@,
    {
        UnsupportedEncodingError { message }
    }

    /// The message, as the error displays it.
    pub fn to_string(&self) -> (r: String)
        ensures
            r@ == self.message@,
    {
        self.message.clone()
    }
}

} // verus!
