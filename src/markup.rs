//! A generic element tree read from XML text, and the character-level text
//! operations that the legacy bookmark format needs before and after reading.
use vstd::prelude::*;

verus! {

/// One node of an XML document: an element with its local name, its
/// attributes in document order and its children, a text node, or anything
/// else (a comment or a processing instruction).
pub enum Markup {
    Element { name: String, attributes: Vec<(String, String)>, children: Vec<Markup> },
    Text(String),
    Other,
}

/// Where and why XML text could not be read: a 1-based row and column and a
/// description of the fault.
pub struct XmlFault {
    pub row: u32,
    pub col: u32,
    pub message: String,
}

#[verifier::external_type_specification]
#[verifier::external_body]
pub struct ExXmlNode<'a, 'input: 'a>(roxmltree::Node<'a, 'input>);

/// What an XML reader makes of `text`: the nodes directly below the document
/// root, or the fault that stopped it.
pub uninterp spec fn xml_content(text: Seq<char>) -> Result<Seq<Markup>, XmlFault>;

/// Relies on `roxmltree::Node`: converts a node and its subtree one for one
/// (local name, attributes, children, text), in document order.
#[verifier::external_body]
fn node_markup(node: roxmltree::Node) -> Markup {
    match node.node_type() {
        roxmltree::NodeType::Element => Markup::Element {
            name: node.tag_name().name().to_string(),
            attributes: node.attributes().map(|a| (a.name().to_string(), a.value().to_string())).collect(),
            children: node.children().map(node_markup).collect(),
        },
        roxmltree::NodeType::Text => Markup::Text(node.text().unwrap_or("").to_string()),
        _ => Markup::Other,
    }
}

/// Relies on `roxmltree::Document::parse`, which reads `text` as an XML
/// document; the outcome depends on `text` alone. On success the children of
/// the document root, converted by `node_markup`; on failure the error's
/// position and its rendered description.
#[verifier::external_body]
pub(crate) fn read_xml(text: &str) -> (r: Result<Vec<Markup>, XmlFault>)
    ensures
        r is Ok ==> xml_content(text@) == Ok::<Seq<Markup>, XmlFault>(r->Ok_0@),
        r is Err ==> xml_content(text@) == Err::<Seq<Markup>, XmlFault>(r->Err_0),
{
    match roxmltree::Document::parse(text) {
        Ok(doc) => Ok(doc.root().children().map(node_markup).collect()),
        Err(e) => Err(XmlFault { row: e.pos().row, col: e.pos().col, message: e.to_string() }),
    }
}

/// Relies on `str::chars`: the characters of `s`, in order.
#[verifier::external_body]
pub(crate) fn chars_of(s: &str) -> (r: Vec<char>)
    ensures
        r@ == s@,
{
    s.chars().collect()
}

/// Relies on `String`'s `FromIterator<&char>`: the string of the characters of `cs`.
#[verifier::external_body]
pub(crate) fn string_of(cs: &Vec<char>) -> (r: String)
    ensures
        r@ == cs@,
{
    cs.iter().collect()
}

/// `s` holds `pat` starting at index `i`.
pub open spec fn occurs_at(s: Seq<char>, pat: Seq<char>, i: int) -> bool {
    0 <= i && i + pat.len() <= s.len() && s.subrange(i, i + pat.len()) == pat
}

/// `s` with every occurrence of the non-empty `pat`, found from left to right
/// without overlap, replaced by `with`.
pub open spec fn replace_all(s: Seq<char>, pat: Seq<char>, with: Seq<char>) -> Seq<char>
    decreases s.len(),
{
    if s.len() == 0 {
        seq![]
    } else if pat.len() > 0 && occurs_at(s, pat, 0) {
        with + replace_all(s.skip(pat.len() as int), pat, with)
    } else {
        seq![s[0]] + replace_all(s.skip(1), pat, with)
    }
}

fn occurs_at_exec(s: &Vec<char>, pat: &Vec<char>, i: usize) -> (r: bool)
    requires
        i <= s.len(),
    ensures
        r == occurs_at(s@, pat@, i as int),
{
    if pat.len() > s.len() - i {
        return false;
    }
    let mut j: usize = 0;
    while j < pat.len()
        invariant
            i + pat.len() <= s.len(),
            j <= pat.len(),
            forall|k: int| 0 <= k < j ==> s@[i + k] == pat@[k],
        decreases pat.len() - j,
    {
        if s[i + j] != pat[j] {
            assert(s@.subrange(i as int, i + pat.len())[j as int] != pat@[j as int]);
            return false;
        }
        j = j + 1;
    }
    assert(s@.subrange(i as int, i + pat.len()) =~= pat@);
    true
}

/// Replaces every occurrence of `pat` in `s`, from left to right without
/// overlap, by `with`.
pub(crate) fn replace_chars(s: &Vec<char>, pat: &Vec<char>, with: &Vec<char>) -> (r: Vec<char>)
    requires
        pat.len() > 0,
    ensures
        r@ == replace_all(s@, pat@, with@),
{
    let mut out: Vec<char> = Vec::new();
    let mut i: usize = 0;
    assert(s@.skip(0) =~= s@);
    assert(out@ + replace_all(s@, pat@, with@) =~= replace_all(s@, pat@, with@));
    while i < s.len()
        invariant
            pat.len() > 0,
            i <= s.len(),
            out@ + replace_all(s@.skip(i as int), pat@, with@) == replace_all(s@, pat@, with@),
        decreases s.len() - i,
    {
        let ghost before = out@;
        let ghost rest = s@.skip(i as int);
        if occurs_at_exec(s, pat, i) {
            assert(rest.subrange(0, pat.len() as int) =~= s@.subrange(i as int, i + pat.len()));
            assert(rest.skip(pat.len() as int) =~= s@.skip(i + pat.len()));
            let mut j: usize = 0;
            while j < with.len()
                invariant
                    j <= with.len(),
                    out@ == before + with@.take(j as int),
                decreases with.len() - j,
            {
                out.push(with[j]);
                assert(with@.take(j + 1) =~= with@.take(j as int).push(with@[j as int]));
                j = j + 1;
            }
            assert(with@.take(j as int) =~= with@);
            assert(before + replace_all(rest, pat@, with@) =~= out@ + replace_all(
                s@.skip(i + pat.len()),
                pat@,
                with@,
            ));
            i = i + pat.len();
        } else {
            if pat.len() <= s.len() - i {
                assert(rest.subrange(0, pat.len() as int) =~= s@.subrange(i as int, i + pat.len()));
            }
            out.push(s[i]);
            assert(rest.skip(1) =~= s@.skip(i + 1));
            assert(before + replace_all(rest, pat@, with@) =~= out@ + replace_all(
                s@.skip(i + 1),
                pat@,
                with@,
            ));
            i = i + 1;
        }
    }
    assert(out@ + replace_all(s@.skip(i as int), pat@, with@) =~= out@);
    out
}

/// The characters of `s` up to its first line break, or all of them.
pub open spec fn first_line(s: Seq<char>) -> Seq<char>
    decreases s.len(),
{
    if s.len() == 0 || s[0] == '\n' {
        seq![]
    } else {
        seq![s[0]] + first_line(s.skip(1))
    }
}

/// Line `k` of `s`, counting from 0 and splitting at `\n`; empty past the last line.
pub open spec fn nth_line(s: Seq<char>, k: nat) -> Seq<char>
    decreases s.len(),
{
    if k == 0 {
        first_line(s)
    } else if s.len() == 0 {
        seq![]
    } else if s[0] == '\n' {
        nth_line(s.skip(1), (k - 1) as nat)
    } else {
        nth_line(s.skip(1), k)
    }
}

/// `n` spaces.
pub open spec fn spaces(n: nat) -> Seq<char> {
    Seq::new(n, |i: int| ' ')
}

/// The 0-based position of the 1-based `n`; 0 for 0 too.
pub open spec fn zero_based(n: nat) -> nat {
    if n > 0 {
        (n - 1) as nat
    } else {
        0
    }
}

/// The line of `s` at the 1-based `row`, a line break, and a caret under the
/// 1-based `col`.
pub open spec fn context_of(s: Seq<char>, row: nat, col: nat) -> Seq<char> {
    nth_line(s, zero_based(row)) + seq!['\n'] + spaces(zero_based(col)) + seq!['^']
}

/// Renders the source line at the 1-based `row` of `text` with a caret
/// under the 1-based `col`. Rows and columns below 1 count as 1.
pub fn render_context(text: &Vec<char>, row: u32, col: u32) -> (r: String)
    ensures
        r@ == context_of(text@, row as nat, col as nat),
{
    let mut k: u32 = if row > 0 {
        row - 1
    } else {
        0
    };
    let mut i: usize = 0;
    assert(text@.skip(0) =~= text@);
    while k > 0 && i < text.len()
        invariant
            i <= text.len(),
            nth_line(text@.skip(i as int), k as nat) == nth_line(text@, zero_based(row as nat)),
        decreases text.len() - i,
    {
        assert(text@.skip(i as int).skip(1) =~= text@.skip(i + 1));
        if text[i] == '\n' {
            k = k - 1;
        }
        i = i + 1;
    }
    let mut line: Vec<char> = Vec::new();
    if k > 0 {
        assert(text@.skip(i as int).len() == 0);
    }
    if k == 0 {
        let ghost start = i;
        while i < text.len() && text[i] != '\n'
            invariant
                start <= i <= text.len(),
                line@ + first_line(text@.skip(i as int)) == first_line(text@.skip(start as int)),
            decreases text.len() - i,
        {
            let ghost before = line@;
            assert(text@.skip(i as int).skip(1) =~= text@.skip(i + 1));
            line.push(text[i]);
            assert(before + first_line(text@.skip(i as int)) =~= line@ + first_line(
                text@.skip(i + 1),
            ));
            i = i + 1;
        }
        assert(line@ + first_line(text@.skip(i as int)) =~= line@);
    }
    let ghost the_line = line@;
    assert(the_line == nth_line(text@, zero_based(row as nat)));
    line.push('\n');
    let width: u32 = if col > 0 {
        col - 1
    } else {
        0
    };
    let ghost head = line@;
    let mut n: u32 = 0;
    while n < width
        invariant
            n <= width,
            line@ == head + spaces(n as nat),
        decreases width - n,
    {
        line.push(' ');
        assert(spaces((n + 1) as nat) =~= spaces(n as nat).push(' '));
        n = n + 1;
    }
    line.push('^');
    let r = string_of(&line);
    assert(n == zero_based(col as nat));
    assert(r@ =~= context_of(text@, row as nat, col as nat));
    r
}

/// `s` and `lit` hold the same characters.
pub fn same_text(s: &str, lit: &str) -> (r: bool)
    ensures
        r == (s@ == lit@),
{
    let n = s.unicode_len();
    if n != lit.unicode_len() {
        return false;
    }
    let mut i: usize = 0;
    while i < n
        invariant
            n == s@.len(),
            n == lit@.len(),
            i <= n,
            forall|k: int| 0 <= k < i ==> s@[k] == lit@[k],
        decreases n - i,
    {
        if s.get_char(i) != lit.get_char(i) {
            return false;
        }
        i = i + 1;
    }
    assert(s@ =~= lit@);
    true
}

} // verus!
