//! The JSON shape of question records.
//!
//! The service speaks one fixed JSON grammar: a record is an object with the
//! fields `id`, `title`, `content` and `tags` (a string array or `null`); the
//! startup payload is an object mapping each record's identifier to the
//! record; the endpoint's response is an array of records. The spec functions
//! here define that grammar as the canonical rendering of a record sequence,
//! the renderers produce it, and the loader accepts exactly it.

use vstd::prelude::*;

use crate::question::Question;
use crate::question::QuestionId;
use crate::question::ids_unique;
use crate::question::ids_valid;

verus! {

/// The error produced when the startup payload cannot be understood.
#[derive(Clone, Copy, Debug, PartialEq, Eq, Structural)]
pub enum LoadError {
    /// The payload is not the canonical rendering of a well-formed record
    /// collection.
    Malformed,
}

/// The text wrapped in double quotes.
pub open spec fn quoted(s: Seq<char>) -> Seq<char> {
    "\""@ + s + "\""@
}

/// The tags from index `i` on, quoted and comma-separated.
pub open spec fn render_tag_items(ts: Seq<String>, i: int) -> Seq<char>
    decreases ts.len() - i,
{
    if i < 0 || i >= ts.len() {
        Seq::empty()
    } else if i == ts.len() - 1 {
        quoted(ts[i]@)
    } else {
        quoted(ts[i]@) + ","@ + render_tag_items(ts, i + 1)
    }
}

/// An optional tag list: a JSON array of strings, or `null`.
pub open spec fn render_tags(tags: Option<Vec<String>>) -> Seq<char> {
    match tags {
        None => "null"@,
        Some(ts) => "["@ + render_tag_items(ts@, 0) + "]"@,
    }
}

/// A record as a JSON object.
pub open spec fn render_question(q: Question) -> Seq<char> {
    "{\"id\":"@ + quoted(q.id@) + ",\"title\":"@ + quoted(q.title@) + ",\"content\":"@ + quoted(
        q.content@,
    ) + ",\"tags\":"@ + render_tags(q.tags) + "}"@
}

/// The records from index `i` on as comma-separated JSON objects.
pub open spec fn render_array_items(qs: Seq<Question>, i: int) -> Seq<char>
    decreases qs.len() - i,
{
    if i < 0 || i >= qs.len() {
        Seq::empty()
    } else if i == qs.len() - 1 {
        render_question(qs[i])
    } else {
        render_question(qs[i]) + ","@ + render_array_items(qs, i + 1)
    }
}

/// A record sequence as a JSON array.
pub open spec fn render_array(qs: Seq<Question>) -> Seq<char> {
    "["@ + render_array_items(qs, 0) + "]"@
}

/// The payload entries from index `i` on: each record keyed by its own
/// identifier, comma-separated.
pub open spec fn render_payload_entries(qs: Seq<Question>, i: int) -> Seq<char>
    decreases qs.len() - i,
{
    if i < 0 || i >= qs.len() {
        Seq::empty()
    } else if i == qs.len() - 1 {
        quoted(qs[i].id@) + ":"@ + render_question(qs[i])
    } else {
        quoted(qs[i].id@) + ":"@ + render_question(qs[i]) + ","@ + render_payload_entries(
            qs,
            i + 1,
        )
    }
}

/// A record sequence as the startup payload: a JSON object keyed by
/// identifier.
pub open spec fn render_payload(qs: Seq<Question>) -> Seq<char> {
    "{"@ + render_payload_entries(qs, 0) + "}"@
}

/// Appends the text wrapped in double quotes.
fn append_quoted(out: &mut String, s: &str)
    ensures
        final(out)@ == old(out)@ + quoted(s@),
{
    out.append("\"");
    out.append(s);
    out.append("\"");
    proof {
        assert(final(out)@ =~= old(out)@ + quoted(s@));
    }
}

/// Appends an optional tag list as a JSON array of strings or `null`.
fn append_tags(out: &mut String, tags: &Option<Vec<String>>)
    ensures
        final(out)@ == old(out)@ + render_tags(*tags),
{
    match tags {
        None => {
            out.append("null");
        },
        Some(ts) => {
            out.append("[");
            let ghost start = out@;
            let n = ts.len();
            let mut i: usize = 0;
            while i < n
                invariant
                    n == ts@.len(),
                    i <= n,
                    start + render_tag_items(ts@, 0) == out@ + render_tag_items(ts@, i as int),
                decreases n - i,
            {
                let ghost before = out@;
                append_quoted(out, ts[i].as_str());
                if i + 1 < n {
                    out.append(",");
                    proof {
                        assert(before + render_tag_items(ts@, i as int) =~= out@
                            + render_tag_items(ts@, i + 1));
                    }
                } else {
                    proof {
                        assert(before + render_tag_items(ts@, i as int) =~= out@
                            + render_tag_items(ts@, i + 1));
                    }
                }
                i = i + 1;
            }
            out.append("]");
            proof {
                assert(final(out)@ =~= old(out)@ + render_tags(*tags));
            }
        },
    }
}

/// Appends a record as a JSON object.
fn append_question(out: &mut String, q: &Question)
    ensures
        final(out)@ == old(out)@ + render_question(*q),
{
    out.append("{\"id\":");
    append_quoted(out, q.id.as_str());
    out.append(",\"title\":");
    append_quoted(out, q.title.as_str());
    out.append(",\"content\":");
    append_quoted(out, q.content.as_str());
    out.append(",\"tags\":");
    append_tags(out, &q.tags);
    out.append("}");
    proof {
        assert(final(out)@ =~= old(out)@ + render_question(*q));
    }
}

/// Renders a record sequence as the endpoint's JSON array.
pub fn render_questions_array(qs: &Vec<Question>) -> (r: String)
    ensures
        r@ == render_array(qs@),
{
    let mut out = String::new();
    out.append("[");
    let ghost start = out@;
    let n = qs.len();
    let mut i: usize = 0;
    while i < n
        invariant
            n == qs@.len(),
            i <= n,
            start + render_array_items(qs@, 0) == out@ + render_array_items(qs@, i as int),
        decreases n - i,
    {
        let ghost before = out@;
        append_question(&mut out, &qs[i]);
        if i + 1 < n {
            out.append(",");
            proof {
                assert(before + render_array_items(qs@, i as int) =~= out@ + render_array_items(
                    qs@,
                    i + 1,
                ));
            }
        } else {
            proof {
                assert(before + render_array_items(qs@, i as int) =~= out@ + render_array_items(
                    qs@,
                    i + 1,
                ));
            }
        }
        i = i + 1;
    }
    out.append("]");
    proof {
        assert(out@ =~= render_array(qs@));
    }
    out
}

/// Renders a record sequence as the startup payload object.
pub fn render_payload_string(qs: &Vec<Question>) -> (r: String)
    ensures
        r@ == render_payload(qs@),
{
    let mut out = String::new();
    out.append("{");
    let ghost start = out@;
    let n = qs.len();
    let mut i: usize = 0;
    while i < n
        invariant
            n == qs@.len(),
            i <= n,
            start + render_payload_entries(qs@, 0) == out@ + render_payload_entries(qs@, i as int),
        decreases n - i,
    {
        let ghost before = out@;
        append_quoted(&mut out, qs[i].id.as_str());
        out.append(":");
        append_question(&mut out, &qs[i]);
        if i + 1 < n {
            out.append(",");
            proof {
                assert(before + render_payload_entries(qs@, i as int) =~= out@
                    + render_payload_entries(qs@, i + 1));
            }
        } else {
            proof {
                assert(before + render_payload_entries(qs@, i as int) =~= out@
                    + render_payload_entries(qs@, i + 1));
            }
        }
        i = i + 1;
    }
    out.append("}");
    proof {
        assert(out@ =~= render_payload(qs@));
    }
    out
}

/// The text contains no double quote, so quoting it needs no escapes.
pub open spec fn plain(s: Seq<char>) -> bool {
    forall|i: int| 0 <= i < s.len() ==> s[i] != '"'
}

/// The characters of `piece` stand in `s` at position `pos`.
pub open spec fn aligned(s: Seq<char>, pos: int, piece: Seq<char>) -> bool {
    0 <= pos && pos + piece.len() <= s.len() && s.subrange(pos, pos + piece.len()) == piece
}

/// Alignment of a concatenation is alignment of both parts in turn.
proof fn lemma_aligned_split(s: Seq<char>, pos: int, a: Seq<char>, b: Seq<char>)
    requires
        aligned(s, pos, a + b),
    ensures
        aligned(s, pos, a),
        aligned(s, pos + a.len(), b),
{
    assert forall|i: int| 0 <= i < a.len() implies s.subrange(pos, pos + a.len())[i] == a[i] by {
        assert(s.subrange(pos, pos + (a + b).len() as int)[i] == (a + b)[i]);
    }
    assert(s.subrange(pos, pos + a.len()) =~= a);
    assert forall|i: int| 0 <= i < b.len() implies s.subrange(
        pos + a.len(),
        pos + a.len() + b.len(),
    )[i] == b[i] by {
        assert(s.subrange(pos, pos + (a + b).len() as int)[a.len() + i] == (a + b)[a.len() + i]);
    }
    assert(s.subrange(pos + a.len(), pos + a.len() + b.len()) =~= b);
}

/// True when the two texts are the same character sequence.
pub(crate) fn str_eq(a: &str, b: &str) -> (r: bool)
    ensures
        r == (a@ == b@),
{
    let oa = a.to_owned();
    let ob = b.to_owned();
    oa == ob
}

/// Accepts the character `c` at `pos`.
fn scan_char(s: &str, pos: usize, c: char) -> (r: Option<usize>)
    requires
        pos <= s@.len(),
    ensures
        r matches Some(p) ==> p == pos + 1 && p <= s@.len(),
        r is Some <==> pos < s@.len() && s@[pos as int] == c,
{
    let n = s.unicode_len();
    if pos < n && s.get_char(pos) == c {
        Some(pos + 1)
    } else {
        None
    }
}

/// Accepts the exact text of `lit` starting at `pos`.
fn scan_lit(s: &str, pos: usize, lit: &str) -> (r: Option<usize>)
    requires
        pos <= s@.len(),
    ensures
        r matches Some(p) ==> p == pos + lit@.len() && p <= s@.len(),
        aligned(s@, pos as int, lit@) ==> r is Some,
{
    let n = s.unicode_len();
    let m = lit.unicode_len();
    if m > n - pos {
        return None;
    }
    let mut j: usize = 0;
    while j < m
        invariant
            n == s@.len(),
            m == lit@.len(),
            pos + m <= n,
            j <= m,
        decreases m - j,
    {
        if s.get_char(pos + j) != lit.get_char(j) {
            proof {
                if aligned(s@, pos as int, lit@) {
                    assert(s@.subrange(pos as int, pos + m) =~= lit@);
                    assert(s@.subrange(pos as int, pos + m)[j as int] == s@[pos + j]);
                }
            }
            return None;
        }
        j = j + 1;
    }
    Some(pos + m)
}

/// Accepts a double-quoted string at `pos` and returns the text between the
/// quotes; the text itself may not contain a double quote.
fn scan_string(s: &str, pos: usize) -> (r: Option<(String, usize)>)
    requires
        pos <= s@.len(),
    ensures
        r matches Some(t) ==> pos < t.1 <= s@.len(),
        forall|t: Seq<char>|
            plain(t) && aligned(s@, pos as int, quoted(t)) ==> (r matches Some(p) && p.0@ == t
                && p.1 == pos + t.len() + 2),
{
    proof {
        reveal_strlit("\"");
    }
    let n = s.unicode_len();
    if pos >= n {
        proof {
            assert forall|t: Seq<char>| plain(t) && aligned(s@, pos as int, quoted(t)) implies
            false by {
                assert(quoted(t).len() == t.len() + 2);
            }
        }
        return None;
    }
    if s.get_char(pos) != '"' {
        proof {
            assert forall|t: Seq<char>| plain(t) && aligned(s@, pos as int, quoted(t)) implies
            false by {
                assert(s@.subrange(pos as int, pos + quoted(t).len() as int)[0] == s@[pos as int]);
                assert(quoted(t)[0] == '"');
            }
        }
        return None;
    }
    let mut i: usize = pos + 1;
    while i < n && s.get_char(i) != '"'
        invariant
            n == s@.len(),
            pos + 1 <= i <= n,
            forall|j: int| pos + 1 <= j < i ==> s@[j] != '"',
        decreases n - i,
    {
        i = i + 1;
    }
    if i >= n {
        proof {
            assert forall|t: Seq<char>| plain(t) && aligned(s@, pos as int, quoted(t)) implies
            false by {
                assert(quoted(t).len() == t.len() + 2);
                assert(s@.subrange(pos as int, pos + t.len() + 2)[t.len() as int + 1] == s@[pos + t.len()
                    + 1]);
                assert(quoted(t)[t.len() as int + 1] == '"');
            }
        }
        return None;
    }
    let content = s.substring_char(pos + 1, i).to_owned();
    proof {
        assert forall|t: Seq<char>| plain(t) && aligned(s@, pos as int, quoted(t)) implies (
        content@ == t && i + 1 == pos + t.len() + 2) by {
            assert(quoted(t).len() == t.len() + 2);
            let e = pos + 1 + t.len();
            assert(s@.subrange(pos as int, pos + t.len() + 2)[t.len() as int + 1] == s@[e as int]);
            assert(quoted(t)[t.len() as int + 1] == '"');
            if i < e {
                assert(s@.subrange(pos as int, pos + t.len() + 2)[i - pos] == s@[i as int]);
                assert(quoted(t)[i - pos] == t[i - pos - 1]);
            }
            assert(i == e);
            assert forall|u: int| 0 <= u < t.len() implies content@[u] == t[u] by {
                assert(s@.subrange(pos as int, pos + t.len() + 2)[u + 1] == s@[pos + 1 + u]);
                assert(quoted(t)[u + 1] == t[u]);
            }
            assert(content@ =~= t);
        }
    }
    Some((content, i + 1))
}

/// Accepts a tag list at `pos`: the word `null`, or a JSON array of strings.
#[verifier::loop_isolation(false)]
fn scan_tags(s: &str, pos: usize) -> (r: Option<(Option<Vec<String>>, usize)>)
    requires
        pos <= s@.len(),
    ensures
        r matches Some(t) ==> pos <= t.1 <= s@.len(),
        aligned(s@, pos as int, "null"@) ==> (r matches Some(t) && t.0 is None && t.1 == pos
            + "null"@.len()),
{
    let n = s.unicode_len();
    let null_scan = scan_lit(s, pos, "null");
    if let Some(p) = null_scan {
        return Some((None, p));
    }
    proof {
        assert(!aligned(s@, pos as int, "null"@));
    }
    let mut p = match scan_char(s, pos, '[') {
        Some(p1) => p1,
        None => {
            return None;
        },
    };
    let mut ts: Vec<String> = Vec::new();
    if let Some(p1) = scan_char(s, p, ']') {
        return Some((Some(ts), p1));
    }
    loop
        invariant
            n == s@.len(),
            pos < p <= n,
        decreases n - p,
    {
        match scan_string(s, p) {
            Some((t, p1)) => {
                ts.push(t);
                p = p1;
            },
            None => {
                return None;
            },
        }
        if let Some(p1) = scan_char(s, p, ']') {
            return Some((Some(ts), p1));
        }
        match scan_char(s, p, ',') {
            Some(p1) => {
                p = p1;
            },
            None => {
                return None;
            },
        }
    }
}

/// The record's texts are plain, its identifier is non-empty, and it
/// carries no tag list.
pub open spec fn plain_untagged(q: Question) -> bool {
    q.id@.len() > 0 && plain(q.id@) && plain(q.title@) && plain(q.content@) && q.tags is None
}

/// The hypothesis under which a record scan is owed success: the witness
/// record is plain and untagged and its rendering stands at `pos`.
spec fn question_at(w: Option<Question>, s: Seq<char>, pos: int, q: Question) -> bool {
    w == Some(q) && plain_untagged(q) && aligned(s, pos, render_question(q))
}

/// Accepts a record object at `pos`, in the field order `id`, `title`,
/// `content`, `tags`; the identifier must be valid. The ghost witness, when
/// it stands at `pos`, pins the result.
fn scan_question(s: &str, pos: usize, w: Ghost<Option<Question>>) -> (r: Option<(Question, usize)>)
    requires
        pos <= s@.len(),
    ensures
        r matches Some(t) ==> pos <= t.1 <= s@.len(),
        r matches Some(t) ==> t.0.id@.len() > 0,
        forall|q: Question|
            question_at(w@, s@, pos as int, q) ==> (r matches Some(t) && t.0.id@ == q.id@
                && t.0.title@ == q.title@ && t.0.content@ == q.content@ && t.0.tags is None && t.1
                == pos + render_question(q).len()),
{
    proof {
        reveal_strlit("{\"id\":");
        reveal_strlit(",\"title\":");
        reveal_strlit(",\"content\":");
        reveal_strlit(",\"tags\":");
        reveal_strlit("null");
        reveal_strlit("}");
        reveal_strlit("\"");
        match w@ {
            Some(q) => {
                if plain_untagged(q) && aligned(s@, pos as int, render_question(q)) {
                    let a1 = "{\"id\":"@;
                    let a2 = quoted(q.id@);
                    let a3 = ",\"title\":"@;
                    let a4 = quoted(q.title@);
                    let a5 = ",\"content\":"@;
                    let a6 = quoted(q.content@);
                    let a7 = ",\"tags\":"@;
                    let a8 = "null"@;
                    let a9 = "}"@;
                    assert(render_question(q) == a1 + a2 + a3 + a4 + a5 + a6 + a7 + a8 + a9);
                    lemma_aligned_split(s@, pos as int, a1 + a2 + a3 + a4 + a5 + a6 + a7 + a8, a9);
                    lemma_aligned_split(s@, pos as int, a1 + a2 + a3 + a4 + a5 + a6 + a7, a8);
                    lemma_aligned_split(s@, pos as int, a1 + a2 + a3 + a4 + a5 + a6, a7);
                    lemma_aligned_split(s@, pos as int, a1 + a2 + a3 + a4 + a5, a6);
                    lemma_aligned_split(s@, pos as int, a1 + a2 + a3 + a4, a5);
                    lemma_aligned_split(s@, pos as int, a1 + a2 + a3, a4);
                    lemma_aligned_split(s@, pos as int, a1 + a2, a3);
                    lemma_aligned_split(s@, pos as int, a1, a2);
                }
            },
            None => {},
        }
    }
    let p1 = match scan_lit(s, pos, "{\"id\":") {
        Some(p) => p,
        None => {
            return None;
        },
    };
    let (id_text, p2) = match scan_string(s, p1) {
        Some(t) => t,
        None => {
            return None;
        },
    };
    let id = match QuestionId::from_str(id_text.as_str()) {
        Ok(q) => q,
        Err(_) => {
            return None;
        },
    };
    let p3 = match scan_lit(s, p2, ",\"title\":") {
        Some(p) => p,
        None => {
            return None;
        },
    };
    let (title, p4) = match scan_string(s, p3) {
        Some(t) => t,
        None => {
            return None;
        },
    };
    let p5 = match scan_lit(s, p4, ",\"content\":") {
        Some(p) => p,
        None => {
            return None;
        },
    };
    let (content, p6) = match scan_string(s, p5) {
        Some(t) => t,
        None => {
            return None;
        },
    };
    let p7 = match scan_lit(s, p6, ",\"tags\":") {
        Some(p) => p,
        None => {
            return None;
        },
    };
    let (tags, p8) = match scan_tags(s, p7) {
        Some(t) => t,
        None => {
            return None;
        },
    };
    let p9 = match scan_char(s, p8, '}') {
        Some(p) => p,
        None => {
            proof {
                assert forall|q: Question| question_at(w@, s@, pos as int, q) implies false by {
                    assert(s@.subrange(p8 as int, p8 + 1) == "}"@);
                    assert(s@.subrange(p8 as int, p8 + 1)[0] == s@[p8 as int]);
                    assert("}"@[0] == '}');
                }
            }
            return None;
        },
    };
    Some((Question { id, title, content, tags }, p9))
}

/// Renderings of a record depend only on the views of its texts.
proof fn lemma_render_question_views(a: Question, b: Question)
    requires
        a.id@ == b.id@,
        a.title@ == b.title@,
        a.content@ == b.content@,
        a.tags is None,
        b.tags is None,
    ensures
        render_question(a) == render_question(b),
{
}

/// The payload is the canonical rendering of exactly one plain, untagged
/// record.
pub open spec fn single_plain_payload(s: Seq<char>, q: Question) -> bool {
    plain_untagged(q) && s == render_payload(seq![q])
}

/// Parses a startup payload: a JSON object mapping each record's identifier
/// to the record itself.
///
/// The loader is strict: it accepts exactly the canonical rendering of a
/// record collection — `render_payload` of the result is the input — with
/// all identifiers valid and pairwise distinct, and rejects anything else.
/// Success is owed at least on the rendering of one plain, untagged record,
/// the shape of the embedded payload.
pub fn parse_payload(s: &str) -> (r: Result<Vec<Question>, LoadError>)
    ensures
        r matches Ok(qs) ==> s@ == render_payload(qs@),
        r matches Ok(qs) ==> ids_unique(qs@) && ids_valid(qs@),
        (exists|q: Question| single_plain_payload(s@, q)) ==> r is Ok,
{
    let ghost w: Option<Question> = if exists|q: Question| single_plain_payload(s@, q) {
        Some(choose|q: Question| single_plain_payload(s@, q))
    } else {
        None
    };
    proof {
        reveal_strlit("{");
        reveal_strlit("}");
        reveal_strlit(":");
        reveal_strlit("\"");
        match w {
            Some(q) => {
                assert(single_plain_payload(s@, q));
                let b1 = "{"@;
                let b2 = quoted(q.id@);
                let b3 = ":"@;
                let b4 = render_question(q);
                let b5 = "}"@;
                assert(render_payload(seq![q]) == b1 + (b2 + b3 + b4) + b5);
                assert(s@.subrange(0, s@.len() as int) =~= s@);
                assert(aligned(s@, 0, b1 + (b2 + b3 + b4) + b5));
                lemma_aligned_split(s@, 0, b1 + (b2 + b3 + b4), b5);
                lemma_aligned_split(s@, 0, b1, b2 + b3 + b4);
                lemma_aligned_split(s@, 0 + b1.len() as int, b2 + b3, b4);
                lemma_aligned_split(s@, 0 + b1.len() as int, b2, b3);
                assert(s@[0] == '{') by {
                    assert(s@.subrange(0, 0 + b1.len() as int)[0] == s@[0]);
                }
                assert(s@[1] == '"') by {
                    assert(s@.subrange(1, 1 + b2.len() as int)[0] == s@[1]);
                    assert(b2[0] == '"');
                }
                assert(aligned(s@, 1, quoted(q.id@)));
                assert(aligned(s@, 1 + quoted(q.id@).len() as int, ":"@));
                assert(aligned(s@, 2 + quoted(q.id@).len() as int, render_question(q)));
                assert(aligned(
                    s@,
                    2 + quoted(q.id@).len() as int + render_question(q).len() as int,
                    "}"@,
                ));
                assert(s@.len() == 3 + quoted(q.id@).len() as int + render_question(q).len() as int);
            },
            None => {},
        }
    }
    let n = s.unicode_len();
    let mut qs: Vec<Question> = Vec::new();
    let p0 = match scan_char(s, 0, '{') {
        Some(p) => p,
        None => {
            return Err(LoadError::Malformed);
        },
    };
    let close_scan = scan_char(s, p0, '}');
    match close_scan {
        Some(p1) => {
            if p1 != n {
                return Err(LoadError::Malformed);
            }
        },
        None => {
            let mut p = p0;
            loop
                invariant_except_break
                    n == s@.len(),
                    p <= n,
                    ids_valid(qs@),
                    w is None ==> !(exists|q: Question| single_plain_payload(s@, q)),
                    w matches Some(q) ==> (p == 1 && qs@.len() == 0 && single_plain_payload(s@, q)
                        && aligned(s@, 1, quoted(q.id@)) && aligned(
                        s@,
                        1 + quoted(q.id@).len() as int,
                        ":"@,
                    ) && aligned(s@, 2 + quoted(q.id@).len() as int, render_question(q)) && aligned(
                        s@,
                        2 + quoted(q.id@).len() as int + render_question(q).len() as int,
                        "}"@,
                    ) && n == 3 + quoted(q.id@).len() as int + render_question(q).len() as int),
                ensures
                    n == s@.len(),
                    ids_valid(qs@),
                    w matches Some(q) ==> (qs@.len() == 1 && qs@[0].id@ == q.id@ && qs@[0].title@
                        == q.title@ && qs@[0].content@ == q.content@ && qs@[0].tags is None),
                decreases n - p,
            {
                proof {
                    reveal_strlit("{");
                    reveal_strlit("}");
                    reveal_strlit(":");
                    reveal_strlit("\"");
                }
                let key_scan = scan_string(s, p);
                let p1 = match key_scan {
                    Some((_key, p1)) => p1,
                    None => {
                        return Err(LoadError::Malformed);
                    },
                };
                let p2 = match scan_char(s, p1, ':') {
                    Some(p2) => p2,
                    None => {
                        proof {
                            match w {
                                Some(qw) => {
                                    assert(s@[1 + quoted(qw.id@).len() as int] == ':') by {
                                        assert(s@.subrange(
                                            1 + quoted(qw.id@).len() as int,
                                            1 + quoted(qw.id@).len() as int + ":"@.len() as int,
                                        )[0] == s@[1 + quoted(qw.id@).len() as int]);
                                        assert(":"@[0] == ':');
                                    }
                                },
                                None => {},
                            }
                        }
                        return Err(LoadError::Malformed);
                    },
                };
                let question_scan = scan_question(s, p2, Ghost(w));
                proof {
                    match w {
                        Some(qw) => {
                            assert(question_at(w, s@, p2 as int, qw));
                        },
                        None => {},
                    }
                }
                let (q, p3) = match question_scan {
                    Some(t) => t,
                    None => {
                        return Err(LoadError::Malformed);
                    },
                };
                qs.push(q);
                let close2 = scan_char(s, p3, '}');
                proof {
                    match w {
                        Some(qw) => {
                            let e = 2 + quoted(qw.id@).len() as int + render_question(
                                qw,
                            ).len() as int;
                            assert(s@[e] == '}') by {
                                assert(s@.subrange(e, e + "}"@.len() as int)[0] == s@[e]);
                                assert("}"@[0] == '}');
                            }
                        },
                        None => {},
                    }
                }
                if let Some(p4) = close2 {
                    if p4 != n {
                        return Err(LoadError::Malformed);
                    }
                    break ;
                }
                p = match scan_char(s, p3, ',') {
                    Some(p4) => p4,
                    None => {
                        proof {
                            match w {
                                Some(qw) => {
                                    assert(quoted(qw.id@).len() == qw.id@.len() + 2);
                                    assert(p1 == 1 + qw.id@.len() + 2);
                                    assert(p2 == 2 + quoted(qw.id@).len());
                                    assert(p3 == p2 + render_question(qw).len());
                                    assert(close2 is Some);
                                },
                                None => {},
                            }
                        }
                        return Err(LoadError::Malformed);
                    },
                };
            }
        },
    }
    // Identifiers must be pairwise distinct.
    let m = qs.len();
    let mut i: usize = 0;
    while i < m
        invariant
            m == qs@.len(),
            i <= m,
            w is Some ==> m == 1,
            w is None ==> !(exists|q: Question| single_plain_payload(s@, q)),
            forall|a: int, b: int| 0 <= a < b < m && a < i ==> qs@[a].id@ != qs@[b].id@,
        decreases m - i,
    {
        let mut j: usize = i + 1;
        while j < m
            invariant
                m == qs@.len(),
                i < m,
                i + 1 <= j <= m,
                w is Some ==> m == 1,
                w is None ==> !(exists|q: Question| single_plain_payload(s@, q)),
                forall|b: int| i < b < j ==> qs@[i as int].id@ != qs@[b].id@,
            decreases m - j,
        {
            if str_eq(qs[i].id.as_str(), qs[j].id.as_str()) {
                return Err(LoadError::Malformed);
            }
            j = j + 1;
        }
        i = i + 1;
    }
    assert(ids_unique(qs@));
    // The payload must be the canonical rendering of what was scanned.
    let rendered = render_payload_string(&qs);
    if str_eq(rendered.as_str(), s) {
        Ok(qs)
    } else {
        proof {
            match w {
                Some(q) => {
                    if qs@.len() == 1 {
                        lemma_render_question_views(qs@[0], q);
                        assert(render_payload_entries(qs@, 0) == quoted(qs@[0].id@) + ":"@
                            + render_question(qs@[0]));
                        assert(render_payload_entries(seq![q], 0) == quoted(q.id@) + ":"@
                            + render_question(q));
                    }
                },
                None => {},
            }
        }
        Err(LoadError::Malformed)
    }
}

} // verus!
