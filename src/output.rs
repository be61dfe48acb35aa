use vstd::prelude::*;
use vstd::string::StringExecFns;

use crate::state::views;

verus! {

/// Relies on `String::push`: appends one character.
#[verifier::external_body]
fn push_char(s: &mut String, c: char)
    ensures
        final(s)@ == old(s)@.push(c),
{
    s.push(c)
}

/// The characters of `s`.
pub fn chars_of(s: &str) -> (r: Vec<char>)
    ensures
        r@ == s@,
{
    let mut r: Vec<char> = Vec::new();
    for c in it: s.chars()
        invariant
            r@ == it.seq().take(it.index() as int),
    {
        r.push(c);
    }
    r
}


/// How one character of a path is written inside a JSON string: a backslash
/// or a double quote gets a backslash before it, anything else stands as is.
pub open spec fn escape_char(c: char) -> Seq<char> {
    if c == '\\' {
        seq!['\\', '\\']
    } else if c == '"' {
        seq!['\\', '"']
    } else {
        seq![c]
    }
}

/// A path as written inside a JSON string. Only backslashes and double
/// quotes are escaped; control characters are written as they are.
pub open spec fn escape_json(s: Seq<char>) -> Seq<char>
    decreases s.len(),
{
    if s.len() == 0 {
        Seq::empty()
    } else {
        escape_json(s.drop_last()) + escape_char(s.last())
    }
}

/// A path as a quoted JSON string.
pub open spec fn quoted(s: Seq<char>) -> Seq<char> {
    seq!['"'] + escape_json(s) + seq!['"']
}

/// Appends `escape_json(p@)` to `out`.
fn push_escaped(out: &mut String, p: &str)
    ensures
        final(out)@ == old(out)@ + escape_json(p@),
{
    let ghost start = out@;
    let cs = chars_of(p);
    let mut i: usize = 0;
    while i < cs.len()
        invariant
            i <= cs.len(),
            cs@ == p@,
            out@ == start + escape_json(cs@.take(i as int)),
        decreases cs.len() - i,
    {
        let c = cs[i];
        proof {
            assert(cs@.take(i + 1).drop_last() =~= cs@.take(i as int));
        }
        if c == '\\' {
            push_char(out, '\\');
            push_char(out, '\\');
        } else if c == '"' {
            push_char(out, '\\');
            push_char(out, '"');
        } else {
            push_char(out, c);
        }
        proof {
            assert(out@ =~= start + escape_json(cs@.take(i + 1)));
        }
        i = i + 1;
    }
    proof {
        assert(cs@.take(i as int) =~= p@);
    }
}

/// The path written inside a JSON string, with backslashes and double quotes
/// escaped.
pub fn escape_json_path(path: &str) -> (r: String)
    ensures
        r@ == escape_json(path@),
{
    let mut r = String::new();
    push_escaped(&mut r, path);
    proof {
        assert(r@ =~= escape_json(path@));
    }
    r
}


/// The quoted paths of a JSON document, separated by commas.
pub open spec fn json_items(paths: Seq<Seq<char>>) -> Seq<char>
    decreases paths.len(),
{
    if paths.len() == 0 {
        Seq::empty()
    } else if paths.len() == 1 {
        quoted(paths[0])
    } else {
        json_items(paths.drop_last()) + seq![','] + quoted(paths.last())
    }
}

/// The paths as one JSON array on one line, followed by a newline.
pub open spec fn json_text(paths: Seq<Seq<char>>) -> Seq<char> {
    seq!['['] + json_items(paths) + seq![']', '\n']
}

/// The paths, each followed by a newline.
pub open spec fn plain_text(paths: Seq<Seq<char>>) -> Seq<char>
    decreases paths.len(),
{
    if paths.len() == 0 {
        Seq::empty()
    } else {
        plain_text(paths.drop_last()) + paths.last() + seq!['\n']
    }
}

/// Appends one quoted path to `out`.
fn push_quoted(out: &mut String, p: &str)
    ensures
        final(out)@ == old(out)@ + quoted(p@),
{
    push_char(out, '"');
    push_escaped(out, p);
    push_char(out, '"');
    proof {
        assert(final(out)@ =~= old(out)@ + quoted(p@));
    }
}

/// The matches as a JSON array of strings, in the given order.
pub fn render_json(paths: &Vec<String>) -> (r: String)
    ensures
        r@ == json_text(views(paths@)),
{
    let ghost ps = views(paths@);
    let mut r = String::new();
    push_char(&mut r, '[');
    let mut i: usize = 0;
    while i < paths.len()
        invariant
            i <= paths.len(),
            ps == views(paths@),
            r@ == seq!['['] + json_items(ps.take(i as int)),
        decreases paths.len() - i,
    {
        proof {
            assert(ps.take(i + 1).drop_last() =~= ps.take(i as int));
        }
        if i > 0 {
            push_char(&mut r, ',');
        }
        push_quoted(&mut r, paths[i].as_str());
        proof {
            assert(r@ =~= seq!['['] + json_items(ps.take(i + 1)));
        }
        i = i + 1;
    }
    push_char(&mut r, ']');
    push_char(&mut r, '\n');
    proof {
        assert(ps.take(i as int) =~= ps);
        assert(r@ =~= json_text(ps));
    }
    r
}

/// The matches as newline-terminated lines, in the given order.
pub fn render_plain(paths: &Vec<String>) -> (r: String)
    ensures
        r@ == plain_text(views(paths@)),
{
    let ghost ps = views(paths@);
    let mut r = String::new();
    let mut i: usize = 0;
    while i < paths.len()
        invariant
            i <= paths.len(),
            ps == views(paths@),
            r@ == plain_text(ps.take(i as int)),
        decreases paths.len() - i,
    {
        proof {
            assert(ps.take(i + 1).drop_last() =~= ps.take(i as int));
        }
        r.append(paths[i].as_str());
        push_char(&mut r, '\n');
        proof {
            assert(r@ =~= plain_text(ps.take(i + 1)));
        }
        i = i + 1;
    }
    proof {
        assert(ps.take(i as int) =~= ps);
    }
    r
}

/// What a live writer writes before any match.
pub open spec fn live_opening(json: bool) -> Seq<char> {
    if json {
        seq!['[']
    } else {
        Seq::empty()
    }
}

/// What a live writer writes for one match; `first` tells whether it is the
/// first one.
pub open spec fn live_record(json: bool, first: bool, p: Seq<char>) -> Seq<char> {
    if json {
        (if first {
            Seq::empty()
        } else {
            seq![',']
        }) + seq!['\n', ' ', ' '] + quoted(p)
    } else {
        p + seq!['\n']
    }
}

/// What a live writer writes when it is finalized; `first` tells whether no
/// match was written.
pub open spec fn live_closing(json: bool, first: bool) -> Seq<char> {
    if !json {
        Seq::empty()
    } else if first {
        seq![']', '\n']
    } else {
        seq!['\n', ']', '\n']
    }
}

/// What a live writer writes for the matches, in order.
pub open spec fn live_records(json: bool, paths: Seq<Seq<char>>) -> Seq<char>
    decreases paths.len(),
{
    if paths.len() == 0 {
        Seq::empty()
    } else {
        live_records(json, paths.drop_last()) + live_record(json, paths.len() == 1, paths.last())
    }
}

/// Everything a live writer writes when it is finalized after the matches.
pub open spec fn live_text(json: bool, paths: Seq<Seq<char>>) -> Seq<char> {
    live_opening(json) + live_records(json, paths) + live_closing(json, paths.len() == 0)
}

/// Encodes matches for a destination written as they are confirmed: each
/// piece is complete on its own, so that what was written up to any point,
/// followed by the closing piece, is a whole document.
pub struct LiveEncoder {
    json: bool,
    first: bool,
}

impl LiveEncoder {
    /// Whether the encoder writes a JSON array.
    pub closed spec fn is_json(&self) -> bool {
        self.json
    }

    /// Whether no match has been encoded yet.
    pub closed spec fn at_start(&self) -> bool {
        self.first
    }

    /// An encoder for JSON (`json`) or for newline-delimited paths.
    pub fn new(json: bool) -> (r: LiveEncoder)
        ensures
            r.is_json() == json,
            r.at_start(),
    {
        LiveEncoder { json, first: true }
    }

    /// What to write before any match.
    pub fn opening(&self) -> (r: String)
        ensures
            r@ == live_opening(self.is_json()),
    {
        let mut r = String::new();
        if self.json {
            push_char(&mut r, '[');
        }
        proof {
            assert(r@ =~= live_opening(self.is_json()));
        }
        r
    }

    /// What to write for one newly confirmed match.
    pub fn record(&mut self, path: &str) -> (r: String)
        ensures
            r@ == live_record(old(self).is_json(), old(self).at_start(), path@),
            final(self).is_json() == old(self).is_json(),
            !final(self).at_start(),
    {
        let mut r = String::new();
        if self.json {
            if !self.first {
                push_char(&mut r, ',');
            }
            push_char(&mut r, '\n');
            push_char(&mut r, ' ');
            push_char(&mut r, ' ');
            push_quoted(&mut r, path);
        } else {
            r.append(path);
            push_char(&mut r, '\n');
        }
        self.first = false;
        proof {
            assert(r@ =~= live_record(old(self).is_json(), old(self).at_start(), path@));
        }
        r
    }

    /// What to write when the output is finalized.
    pub fn closing(&self) -> (r: String)
        ensures
            r@ == live_closing(self.is_json(), self.at_start()),
    {
        let mut r = String::new();
        if self.json {
            if !self.first {
                push_char(&mut r, '\n');
            }
            push_char(&mut r, ']');
            push_char(&mut r, '\n');
        }
        proof {
            assert(r@ =~= live_closing(self.is_json(), self.at_start()));
        }
        r
    }
}


/// The characters that may follow a backslash in a JSON string (the
/// four-digit `\u` form aside).
pub open spec fn json_escapable(c: char) -> bool {
    c == '"' || c == '\\' || c == '/' || c == 'b' || c == 'f' || c == 'n' || c == 'r' || c == 't'
}

/// Whether `s` may stand between the quotes of a JSON string: no bare double
/// quote, no control character, and each backslash starts an escape.
pub open spec fn json_string_content(s: Seq<char>) -> bool
    decreases s.len(),
{
    if s.len() == 0 {
        true
    } else if s[0] == '\\' {
        s.len() >= 2 && json_escapable(s[1]) && json_string_content(s.subrange(2, s.len() as int))
    } else {
        s[0] != '"' && s[0] as u32 >= 0x20 && json_string_content(s.drop_first())
    }
}

/// Whether `p` holds no control character (below U+0020).
pub open spec fn no_control_chars(p: Seq<char>) -> bool {
    forall|i: int| 0 <= i < p.len() ==> #[trigger] p[i] as u32 >= 0x20
}

/// Texts separated by commas.
pub open spec fn comma_join(elems: Seq<Seq<char>>) -> Seq<char>
    decreases elems.len(),
{
    if elems.len() == 0 {
        Seq::empty()
    } else if elems.len() == 1 {
        elems[0]
    } else {
        comma_join(elems.drop_last()) + seq![','] + elems.last()
    }
}

/// The whitespace a live writer puts before each element.
pub open spec fn live_lead() -> Seq<char> {
    seq!['\n', ' ', ' ']
}

/// Each path as a live writer lays it out inside the array.
pub open spec fn live_elements(paths: Seq<Seq<char>>) -> Seq<Seq<char>> {
    paths.map_values(|p: Seq<char>| live_lead() + quoted(p))
}

proof fn lemma_content_concat(a: Seq<char>, b: Seq<char>)
    requires
        json_string_content(a),
        json_string_content(b),
    ensures
        json_string_content(a + b),
    decreases a.len(),
{
    if a.len() > 0 {
        if a[0] == '\\' {
            lemma_content_concat(a.subrange(2, a.len() as int), b);
            assert((a + b).subrange(2, (a + b).len() as int) =~= a.subrange(2, a.len() as int) + b);
        } else {
            lemma_content_concat(a.drop_first(), b);
            assert((a + b).drop_first() =~= a.drop_first() + b);
        }
    } else {
        assert(a + b =~= b);
    }
}

proof fn lemma_escape_content(p: Seq<char>)
    requires
        no_control_chars(p),
    ensures
        json_string_content(escape_json(p)),
    decreases p.len(),
{
    if p.len() > 0 {
        let c = p.last();
        assert(p.drop_last().len() < p.len());
        assert forall|i: int| 0 <= i < p.drop_last().len() implies #[trigger] p.drop_last()[i] as u32
            >= 0x20 by {
            assert(p[i] as u32 >= 0x20);
        }
        lemma_escape_content(p.drop_last());
        let e = escape_char(c);
        assert(c as u32 >= 0x20);
        if c == '\\' || c == '"' {
            assert(e.subrange(2, 2) =~= Seq::<char>::empty());
            assert(json_string_content(e.subrange(2, e.len() as int)));
        } else {
            assert(e.drop_first() =~= Seq::<char>::empty());
            assert(json_string_content(e.drop_first()));
        }
        lemma_content_concat(escape_json(p.drop_last()), e);
    }
}

proof fn lemma_live_records_join(paths: Seq<Seq<char>>)
    ensures
        live_records(true, paths) == comma_join(live_elements(paths)),
    decreases paths.len(),
{
    if paths.len() > 0 {
        lemma_live_records_join(paths.drop_last());
        assert(live_elements(paths.drop_last()) =~= live_elements(paths).drop_last());
        if paths.len() == 1 {
            assert(live_records(true, paths) =~= comma_join(live_elements(paths)));
        } else {
            assert(live_records(true, paths) =~= comma_join(live_elements(paths)));
        }
    }
}

/// The JSON that a live writer leaves, finalized after any number of
/// matches, is an array: `[`, the matches as JSON strings each after some
/// whitespace and separated by commas, optional whitespace, `]`. Each string
/// is well formed where the path holds no control character, which the
/// escaping leaves as it is.
pub proof fn lemma_live_json_is_array(paths: Seq<Seq<char>>)
    requires
        forall|i: int| 0 <= i < paths.len() ==> no_control_chars(#[trigger] paths[i]),
    ensures
        live_text(true, paths) == seq!['['] + comma_join(live_elements(paths)) + (if paths.len()
            == 0 {
            Seq::<char>::empty()
        } else {
            seq!['\n']
        }) + seq![']', '\n'],
        forall|i: int|
            0 <= i < paths.len() ==> json_string_content(escape_json(#[trigger] paths[i])),
{
    lemma_live_records_join(paths);
    assert forall|i: int| 0 <= i < paths.len() implies json_string_content(
        escape_json(#[trigger] paths[i]),
    ) by {
        lemma_escape_content(paths[i]);
    }
    assert(live_text(true, paths) =~= seq!['['] + comma_join(live_elements(paths)) + (if paths.len()
        == 0 {
        Seq::<char>::empty()
    } else {
        seq!['\n']
    }) + seq![']', '\n']);
}

} // verus!
