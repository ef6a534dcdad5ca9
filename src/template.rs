//! URL templates: `%s` placeholders filled from a free-text query or from
//! values picked out of choice lists.
use vstd::prelude::*;
use vstd::utf8::{encode_scalar, encode_utf8};

verus! {

/// `t` holds the placeholder `%s` at index `i`.
pub open spec fn placeholder_at(t: Seq<char>, i: int) -> bool {
    0 <= i && i + 1 < t.len() && t[i] == '%' && t[i + 1] == 's'
}

/// The number of placeholders in `t`, read from left to right without overlap.
pub open spec fn placeholder_count(t: Seq<char>) -> nat
    decreases t.len(),
{
    if t.len() == 0 {
        0
    } else if placeholder_at(t, 0) {
        1 + placeholder_count(t.skip(2))
    } else {
        placeholder_count(t.skip(1))
    }
}

/// `t` with its first placeholder replaced by `v`; `t` itself if it has none.
pub open spec fn fill_first(t: Seq<char>, v: Seq<char>) -> Seq<char>
    decreases t.len(),
{
    if t.len() == 0 {
        seq![]
    } else if placeholder_at(t, 0) {
        v + t.skip(2)
    } else {
        seq![t[0]] + fill_first(t.skip(1), v)
    }
}

/// `t` with its placeholders replaced by the values of `vs`, in order: the
/// literal pieces between placeholders alternate with the values.
pub open spec fn fill_all(t: Seq<char>, vs: Seq<Seq<char>>) -> Seq<char>
    decreases t.len(),
{
    if t.len() == 0 {
        seq![]
    } else if placeholder_at(t, 0) {
        vs[0] + fill_all(t.skip(2), vs.drop_first())
    } else {
        seq![t[0]] + fill_all(t.skip(1), vs)
    }
}

/// The byte `b` is kept as it is by percent-encoding: an ASCII letter or
/// digit, `-`, `.`, `_` or `~`.
pub open spec fn unreserved(b: u8) -> bool {
    (48 <= b <= 57) || (65 <= b <= 90) || (97 <= b <= 122) || b == 45 || b == 46 || b == 95
        || b == 126
}

/// The upper-case hexadecimal digit of `n`, for `n < 16`.
pub open spec fn hex_digit(n: u8) -> char {
    if n < 10 {
        (n + 48) as char
    } else {
        (n + 55) as char
    }
}

/// The percent-encoding of one byte: itself when unreserved, otherwise `%`
/// and its two hexadecimal digits.
pub open spec fn percent_byte(b: u8) -> Seq<char> {
    if unreserved(b) {
        seq![b as char]
    } else {
        seq!['%', hex_digit(b / 16), hex_digit(b % 16)]
    }
}

/// The percent-encoding of a byte sequence, byte by byte.
pub open spec fn percent_encode(bytes: Seq<u8>) -> Seq<char>
    decreases bytes.len(),
{
    if bytes.len() == 0 {
        seq![]
    } else {
        percent_byte(bytes[0]) + percent_encode(bytes.drop_first())
    }
}

/// The percent-encoded form of a query: the percent-encoding of its UTF-8 bytes.
pub open spec fn url_encoded(s: Seq<char>) -> Seq<char> {
    percent_encode(encode_utf8(s))
}

/// A space in a query is percent-encoded as `%20`.
pub proof fn lemma_space_encodes_as_percent_20()
    ensures
        url_encoded(seq![' ']) == seq!['%', '2', '0'],
{
    assert((32u32 & 0x7Fu32) == 32u32) by (bit_vector);
    assert(' ' as u32 == 32u32);
    assert(seq![' '].drop_first() =~= Seq::<char>::empty());
    assert(encode_scalar(32u32) =~= seq![32u8]);
    assert(encode_utf8(Seq::<char>::empty()) =~= Seq::<u8>::empty());
    assert(encode_utf8(seq![' ']) == encode_scalar(32u32) + encode_utf8(Seq::<char>::empty()));
    assert(encode_utf8(seq![' ']) =~= seq![32u8]);
    assert(seq![32u8].drop_first() =~= Seq::<u8>::empty());
    assert(percent_byte(32u8) =~= seq!['%', '2', '0']);
    assert(percent_encode(Seq::<u8>::empty()) =~= Seq::<char>::empty());
    assert(percent_encode(seq![32u8]) == percent_byte(32u8) + percent_encode(Seq::<u8>::empty()));
    assert(percent_encode(seq![32u8]) =~= seq!['%', '2', '0']);
}

/// Relies on `urlencoding::encode`, which percent-encodes every byte of the
/// UTF-8 form of `s` except ASCII letters, digits and `-`, `.`, `_`, `~`,
/// writing `%` and two upper-case hexadecimal digits.
#[verifier::external_body]
fn encode_query(s: &str) -> (r: String)
    ensures
        r@ == url_encoded(s@),
{
    urlencoding::encode(s).into_owned()
}

/// A template was given fewer values than it has placeholders.
#[derive(Debug, Clone, Copy, PartialEq, Eq, Structural)]
pub enum TemplateError {
    Arity,
}

/// The strings of `v`, as character sequences.
pub open spec fn strings_view(v: Seq<String>) -> Seq<Seq<char>> {
    v.map_values(|s: String| s@)
}

proof fn lemma_fill_first_none(t: Seq<char>, v: Seq<char>)
    requires
        placeholder_count(t) == 0,
    ensures
        fill_first(t, v) == t,
    decreases t.len(),
{
    if t.len() > 0 {
        lemma_fill_first_none(t.skip(1), v);
        assert(seq![t[0]] + t.skip(1) =~= t);
    }
}

proof fn lemma_fill_first_at(t: Seq<char>, v: Seq<char>, i: int)
    requires
        placeholder_at(t, i),
        forall|j: int| 0 <= j < i ==> !placeholder_at(t, j),
    ensures
        fill_first(t, v) == t.take(i) + v + t.skip(i + 2),
    decreases i,
{
    if i == 0 {
        assert(t.take(0) + v + t.skip(2) =~= v + t.skip(2));
    } else {
        assert(!placeholder_at(t, 0));
        let rest = t.skip(1);
        assert forall|j: int| 0 <= j < i - 1 implies !placeholder_at(rest, j) by {
            assert(!placeholder_at(t, j + 1));
        }
        lemma_fill_first_at(rest, v, i - 1);
        assert(seq![t[0]] + (rest.take(i - 1) + v + rest.skip(i + 1)) =~= t.take(i) + v + t.skip(
            i + 2,
        ));
    }
}

/// A search template without `%s` resolves to itself whatever the query; one
/// with `%s` has exactly its first placeholder, at `i`, replaced by the
/// percent-encoded query, and everything else kept.
pub proof fn lemma_search_substitutes_once(t: Seq<char>, q: Seq<char>, i: int)
    ensures
        placeholder_count(t) == 0 ==> fill_first(t, url_encoded(q)) == t,
        placeholder_at(t, i) && (forall|j: int| 0 <= j < i ==> !placeholder_at(t, j)) ==> fill_first(
            t,
            url_encoded(q),
        ) == t.take(i) + url_encoded(q) + t.skip(i + 2),
{
    if placeholder_count(t) == 0 {
        lemma_fill_first_none(t, url_encoded(q));
    }
    if placeholder_at(t, i) && (forall|j: int| 0 <= j < i ==> !placeholder_at(t, j)) {
        lemma_fill_first_at(t, url_encoded(q), i);
    }
}

/// Replaces the first `%s` of `template` by `value`, inserted verbatim.
pub fn fill_placeholder(template: &str, value: &str) -> (r: String)
    ensures
        r@ == fill_first(template@, value@),
{
    let n = template.unicode_len();
    let ghost t = template@;
    let mut out = String::new();
    let mut i: usize = 0;
    assert(t.skip(0) =~= t);
    assert(out@ + fill_first(t, value@) =~= fill_first(t, value@));
    while i < n
        invariant
            n == t.len(),
            t == template@,
            i <= n,
            out@ + fill_first(t.skip(i as int), value@) == fill_first(t, value@),
        decreases n - i,
    {
        if i + 1 < n && template.get_char(i) == '%' && template.get_char(i + 1) == 's' {
            let ghost before = out@;
            out.append(value);
            out.append(template.substring_char(i + 2, n));
            assert(t.skip(i as int).skip(2) =~= t.subrange(i + 2, n as int));
            assert(out@ =~= before + fill_first(t.skip(i as int), value@));
            return out;
        }
        let ghost before = out@;
        out.append(template.substring_char(i, i + 1));
        assert(t.skip(i as int).skip(1) =~= t.skip(i + 1));
        assert(t.subrange(i as int, i + 1) =~= seq![t.skip(i as int)[0]]);
        assert(before + fill_first(t.skip(i as int), value@) =~= out@ + fill_first(
            t.skip(i + 1),
            value@,
        ));
        i = i + 1;
    }
    assert(out@ =~= out@ + fill_first(t.skip(i as int), value@));
    out
}

/// Resolves a free-text search: the first `%s` of `url` is replaced by the
/// percent-encoded `query`; a `url` without `%s` comes back unchanged.
pub fn search(url: &str, query: &str) -> (r: String)
    ensures
        r@ == fill_first(url@, url_encoded(query@)),
{
    let encoded = encode_query(query);
    fill_placeholder(url, encoded.as_str())
}

/// The number of `%s` placeholders in `template`.
pub fn count_placeholders(template: &str) -> (r: usize)
    ensures
        r == placeholder_count(template@),
{
    let n = template.unicode_len();
    let ghost t = template@;
    let mut count: usize = 0;
    let mut i: usize = 0;
    assert(t.skip(0) =~= t);
    while i < n
        invariant
            n == t.len(),
            t == template@,
            i <= n,
            count <= i,
            count + placeholder_count(t.skip(i as int)) == placeholder_count(t),
        decreases n - i,
    {
        if i + 1 < n && template.get_char(i) == '%' && template.get_char(i + 1) == 's' {
            assert(t.skip(i as int).skip(2) =~= t.skip(i + 2));
            count = count + 1;
            i = i + 2;
        } else {
            assert(t.skip(i as int).skip(1) =~= t.skip(i + 1));
            i = i + 1;
        }
    }
    count
}

/// Fills every `%s` of `template` with the next value of `selections`,
/// inserted verbatim. Fails with `Arity` when there are fewer values than
/// placeholders; values beyond the last placeholder are not used.
pub fn expand_multiple(template: &str, selections: &Vec<String>) -> (r: Result<
    String,
    TemplateError,
>)
    ensures
        selections.len() < placeholder_count(template@) ==> r == Err::<String, TemplateError>(
            TemplateError::Arity,
        ),
        selections.len() >= placeholder_count(template@) ==> r is Ok && r->Ok_0@ == fill_all(
            template@,
            strings_view(selections@),
        ),
{
    let n = template.unicode_len();
    let ghost t = template@;
    let ghost vs = strings_view(selections@);
    let mut out = String::new();
    let mut i: usize = 0;
    let mut k: usize = 0;
    assert(t.skip(0) =~= t);
    assert(vs.skip(0) =~= vs);
    assert(out@ + fill_all(t, vs) =~= fill_all(t, vs));
    while i < n
        invariant
            n == t.len(),
            t == template@,
            vs == strings_view(selections@),
            i <= n,
            k <= selections.len(),
            k + placeholder_count(t.skip(i as int)) == placeholder_count(t),
            out@ + fill_all(t.skip(i as int), vs.skip(k as int)) == fill_all(t, vs),
        decreases n - i,
    {
        let ghost before = out@;
        if i + 1 < n && template.get_char(i) == '%' && template.get_char(i + 1) == 's' {
            assert(t.skip(i as int).skip(2) =~= t.skip(i + 2));
            if k >= selections.len() {
                return Err(TemplateError::Arity);
            }
            out.append(selections[k].as_str());
            assert(vs.skip(k as int).drop_first() =~= vs.skip(k + 1));
            assert(before + fill_all(t.skip(i as int), vs.skip(k as int)) =~= out@ + fill_all(
                t.skip(i + 2),
                vs.skip(k + 1),
            ));
            k = k + 1;
            i = i + 2;
        } else {
            out.append(template.substring_char(i, i + 1));
            assert(t.skip(i as int).skip(1) =~= t.skip(i + 1));
            assert(t.subrange(i as int, i + 1) =~= seq![t.skip(i as int)[0]]);
            assert(before + fill_all(t.skip(i as int), vs.skip(k as int)) =~= out@ + fill_all(
                t.skip(i + 1),
                vs.skip(k as int),
            ));
            i = i + 1;
        }
    }
    assert(out@ =~= out@ + fill_all(t.skip(i as int), vs.skip(k as int)));
    Ok(out)
}

} // verus!
