//! A tokenizer for bookmark-export markup: tag starts and ends, close tags
//! and the text between them.
use crate::markup::{chars_of, same_text, spaces, string_of, zero_based};
use vstd::prelude::*;

verus! {

/// The kinds of tag that bookmark exports use, by name in either case.
#[derive(Debug, Clone, Copy, PartialEq, Eq, Structural)]
pub enum TagTypu {
    Heading1,
    Heading3,
    Title,
    DataTable,
    DataList,
    Anchor,
    Paragraph,
    Comment,
    Other,
}

/// The kind of tag named `name`.
pub open spec fn tag_kind(name: Seq<char>) -> TagTypu {
    if name == "H1"@ || name == "h1"@ {
        TagTypu::Heading1
    } else if name == "H3"@ || name == "h3"@ {
        TagTypu::Heading3
    } else if name == "TITLE"@ || name == "title"@ {
        TagTypu::Title
    } else if name == "DT"@ || name == "dt"@ {
        TagTypu::DataTable
    } else if name == "DL"@ || name == "dl"@ {
        TagTypu::DataList
    } else if name == "A"@ || name == "a"@ {
        TagTypu::Anchor
    } else if name == "P"@ || name == "p"@ {
        TagTypu::Paragraph
    } else {
        TagTypu::Other
    }
}

impl TagTypu {
    pub fn from_string(s: String) -> (r: TagTypu)
        ensures
            r == tag_kind(s@),
    {
        let n = s.as_str();
        if same_text(n, "H1") || same_text(n, "h1") {
            TagTypu::Heading1
        } else if same_text(n, "H3") || same_text(n, "h3") {
            TagTypu::Heading3
        } else if same_text(n, "TITLE") || same_text(n, "title") {
            TagTypu::Title
        } else if same_text(n, "DT") || same_text(n, "dt") {
            TagTypu::DataTable
        } else if same_text(n, "DL") || same_text(n, "dl") {
            TagTypu::DataList
        } else if same_text(n, "A") || same_text(n, "a") {
            TagTypu::Anchor
        } else if same_text(n, "P") || same_text(n, "p") {
            TagTypu::Paragraph
        } else {
            TagTypu::Other
        }
    }
}

/// One lexical unit of markup.
#[derive(Debug, PartialEq, Eq)]
pub enum LexToken {
    /// `<` and the name of an opening tag.
    OpenTagStart(TagTypu),
    /// A `>`: the end of an opening tag, after its attributes.
    OpenTagEnd,
    /// A whole closing tag, `</name>`.
    CloseTag(TagTypu),
    /// The text between two tags.
    Text(String),
}

/// Mathematical model of a `LexToken`.
pub enum TokenModel {
    OpenTagStart(TagTypu),
    OpenTagEnd,
    CloseTag(TagTypu),
    Text(Seq<char>),
}

impl View for LexToken {
    type V = TokenModel;

    open spec fn view(&self) -> TokenModel {
        match self {
            LexToken::OpenTagStart(k) => TokenModel::OpenTagStart(*k),
            LexToken::OpenTagEnd => TokenModel::OpenTagEnd,
            LexToken::CloseTag(k) => TokenModel::CloseTag(*k),
            LexToken::Text(s) => TokenModel::Text(s@),
        }
    }
}

/// A 1-based position in a text.
#[derive(Debug, Clone, Copy, PartialEq, Eq, Structural)]
pub struct Pos {
    pub col: usize,
    pub row: usize,
}

/// A construct that the input ends inside of.
pub struct LexError {
    pub pos: Pos,
    pub message: String,
    pub context: Option<String>,
}

/// The 1-based row and column of index `i` of `s`.
pub open spec fn pos_of(s: Seq<char>, i: int) -> (nat, nat)
    decreases i,
{
    if i <= 0 {
        (1, 1)
    } else {
        let (row, col) = pos_of(s, i - 1);
        if s[i - 1] == '\n' {
            (row + 1, 1)
        } else {
            (row, col + 1)
        }
    }
}

/// The first index from `i` on that holds `c`, or the length of `s`.
pub open spec fn find_char(s: Seq<char>, i: int, c: char) -> int
    decreases s.len() - i,
{
    if i >= s.len() {
        s.len() as int
    } else if s[i] == c {
        i
    } else {
        find_char(s, i + 1, c)
    }
}

/// `c` ends a tag name: a space, `>` or `/`.
pub open spec fn ends_name(c: char) -> bool {
    c == ' ' || c == '>' || c == '/'
}

/// The end of the text run that starts at `i`: the first `<` or `>` from
/// `i` on, or the length of `s`.
pub open spec fn text_end(s: Seq<char>, i: int) -> int
    decreases s.len() - i,
{
    if i >= s.len() {
        s.len() as int
    } else if s[i] == '<' || s[i] == '>' {
        i
    } else {
        text_end(s, i + 1)
    }
}

/// The end of the tag name that starts at `i`.
pub open spec fn name_end(s: Seq<char>, i: int) -> int
    decreases s.len() - i,
{
    if i >= s.len() {
        s.len() as int
    } else if ends_name(s[i]) {
        i
    } else {
        name_end(s, i + 1)
    }
}

/// The token of the tag that starts with `<` at `i`, and the index after
/// it. `</name ... >` is a closing tag, `None` when the input ends before its
/// `>`; anything else is the start of an opening tag, named up to the first
/// space, `>` or `/`, whose attributes and `>` follow.
pub open spec fn tag_at(s: Seq<char>, i: int) -> Option<(TokenModel, int)> {
    if i + 1 < s.len() && s[i + 1] == '/' {
        let j = name_end(s, i + 2);
        let e = find_char(s, j, '>');
        if e >= s.len() {
            None
        } else {
            Some((TokenModel::CloseTag(tag_kind(s.subrange(i + 2, j))), e + 1))
        }
    } else {
        let j = name_end(s, i + 1);
        Some((TokenModel::OpenTagStart(tag_kind(s.subrange(i + 1, j))), j))
    }
}

/// The tokens of `s` from index `i` on, inside an opening tag's attributes
/// when `in_tag`. Attributes are passed over; every `>` is an `OpenTagEnd`;
/// the input ending inside a tag ends the tokens.
pub open spec fn lex_from(s: Seq<char>, i: int, in_tag: bool) -> Seq<TokenModel>
    decreases s.len() - i,
{
    if i < 0 || i >= s.len() {
        seq![]
    } else if in_tag {
        let e = find_char(s, i, '>');
        if e < i || e >= s.len() {
            seq![]
        } else {
            seq![TokenModel::OpenTagEnd] + lex_from(s, e + 1, false)
        }
    } else if s[i] == '<' {
        match tag_at(s, i) {
            None => seq![],
            Some((tok, next)) => if next <= i || next > s.len() {
                seq![]
            } else {
                seq![tok] + lex_from(s, next, tok is OpenTagStart)
            },
        }
    } else if s[i] == '>' {
        seq![TokenModel::OpenTagEnd] + lex_from(s, i + 1, false)
    } else {
        let e = text_end(s, i);
        if e <= i || e > s.len() {
            seq![]
        } else {
            seq![TokenModel::Text(s.subrange(i, e))] + lex_from(s, e, false)
        }
    }
}

/// The models of a sequence of tokens.
pub open spec fn tokens_view(v: Seq<LexToken>) -> Seq<TokenModel> {
    v.map_values(|t: LexToken| t@)
}

fn find_char_exec(s: &Vec<char>, i: usize, c: char) -> (r: usize)
    requires
        i <= s.len(),
    ensures
        r as int == find_char(s@, i as int, c),
        i <= r <= s.len(),
{
    let mut j = i;
    while j < s.len() && s[j] != c
        invariant
            i <= j <= s.len(),
            find_char(s@, j as int, c) == find_char(s@, i as int, c),
        decreases s.len() - j,
    {
        j = j + 1;
    }
    j
}

fn text_end_exec(s: &Vec<char>, i: usize) -> (r: usize)
    requires
        i <= s.len(),
    ensures
        r as int == text_end(s@, i as int),
        i <= r <= s.len(),
{
    let mut j = i;
    while j < s.len() && s[j] != '<' && s[j] != '>'
        invariant
            i <= j <= s.len(),
            text_end(s@, j as int) == text_end(s@, i as int),
        decreases s.len() - j,
    {
        j = j + 1;
    }
    j
}

fn name_end_exec(s: &Vec<char>, i: usize) -> (r: usize)
    requires
        i <= s.len(),
    ensures
        r as int == name_end(s@, i as int),
        i <= r <= s.len(),
{
    let mut j = i;
    while j < s.len() && !(s[j] == ' ' || s[j] == '>' || s[j] == '/')
        invariant
            i <= j <= s.len(),
            name_end(s@, j as int) == name_end(s@, i as int),
        decreases s.len() - j,
    {
        j = j + 1;
    }
    j
}

fn chars_between(s: &Vec<char>, from: usize, to: usize) -> (r: Vec<char>)
    requires
        from <= to <= s.len(),
    ensures
        r@ == s@.subrange(from as int, to as int),
{
    let mut r: Vec<char> = Vec::new();
    let mut k = from;
    while k < to
        invariant
            from <= k <= to <= s.len(),
            r@ == s@.subrange(from as int, k as int),
        decreases to - k,
    {
        r.push(s[k]);
        assert(s@.subrange(from as int, k + 1) =~= s@.subrange(from as int, k as int).push(
            s@[k as int],
        ));
        k = k + 1;
    }
    r
}

fn text_between(s: &Vec<char>, from: usize, to: usize) -> (r: String)
    requires
        from <= to <= s.len(),
    ensures
        r@ == s@.subrange(from as int, to as int),
{
    let cs = chars_between(s, from, to);
    string_of(&cs)
}

fn pos_exec(s: &Vec<char>, i: usize) -> (r: Pos)
    requires
        i < s.len(),
    ensures
        (r.row as nat, r.col as nat) == pos_of(s@, i as int),
{
    let mut row: usize = 1;
    let mut col: usize = 1;
    let mut k: usize = 0;
    while k < i
        invariant
            k <= i < s.len(),
            row <= k + 1,
            col <= k + 1,
            (row as nat, col as nat) == pos_of(s@, k as int),
        decreases i - k,
    {
        if s[k] == '\n' {
            row = row + 1;
            col = 1;
        } else {
            col = col + 1;
        }
        k = k + 1;
    }
    Pos { col, row }
}

/// Reads the tag that starts with `<` at index `start` of `chars`: its
/// token and the index after it, or an error at `start` when the input ends
/// inside a closing tag. Any other tag yields `OpenTagStart` of the kind of
/// its name, which runs up to the first space, `>` or `/`.
pub fn get_tag(chars: &Vec<char>, start: usize) -> (r: Result<(LexToken, usize), LexError>)
    requires
        start < chars.len(),
        chars@[start as int] == '<',
    ensures
        match tag_at(chars@, start as int) {
            None => r is Err && (r->Err_0.pos.row as nat, r->Err_0.pos.col as nat) == pos_of(
                chars@,
                start as int,
            ),
            Some((tok, next)) => r is Ok && r->Ok_0.0@ == tok && r->Ok_0.1 == next && start
                < next <= chars.len(),
        },
{
    let s = chars;
    let i = start;
    if i + 1 < s.len() && s[i + 1] == '/' {
        let j = name_end_exec(s, i + 2);
        let e = find_char_exec(s, j, '>');
        if e >= s.len() {
            return Err(
                LexError {
                    pos: pos_exec(s, i),
                    message: String::from_str("unterminated closing tag"),
                    context: None,
                },
            );
        }
        let kind = TagTypu::from_string(text_between(s, i + 2, j));
        Ok((LexToken::CloseTag(kind), e + 1))
    } else {
        let j = name_end_exec(s, i + 1);
        let kind = TagTypu::from_string(text_between(s, i + 1, j));
        Ok((LexToken::OpenTagStart(kind), j))
    }
}

/// Splits `content` into tokens: text runs, tag starts, closing tags, and
/// an `OpenTagEnd` for every `>`. Attributes are passed over; input that ends
/// inside a tag ends the tokens.
pub fn lex_tokens(content: String) -> (r: Vec<LexToken>)
    ensures
        tokens_view(r@) == lex_from(content@, 0, false),
{
    let chars = chars_of(content.as_str());
    let s = &chars;
    let mut result: Vec<LexToken> = Vec::new();
    let mut i: usize = 0;
    let mut in_tag = false;
    while i < s.len()
        invariant
            i <= s.len(),
            s@ == content@,
            tokens_view(result@) + lex_from(s@, i as int, in_tag) == lex_from(s@, 0, false),
        decreases s.len() - i,
    {
        let ghost before = tokens_view(result@);
        if in_tag {
            let e = find_char_exec(s, i, '>');
            if e >= s.len() {
                assert(tokens_view(result@) + lex_from(s@, s.len() as int, false) =~= lex_from(
                    s@,
                    0,
                    false,
                ));
                i = s.len();
                in_tag = false;
            } else {
                result.push(LexToken::OpenTagEnd);
                assert(tokens_view(result@) =~= before.push(TokenModel::OpenTagEnd));
                assert(tokens_view(result@) + lex_from(s@, e + 1, false) =~= lex_from(
                    s@,
                    0,
                    false,
                ));
                i = e + 1;
                in_tag = false;
            }
        } else if s[i] == '<' {
            match get_tag(s, i) {
                Ok((tok, next)) => {
                    let opening = match &tok {
                        LexToken::OpenTagStart(_) => true,
                        _ => false,
                    };
                    let ghost t = tok@;
                    result.push(tok);
                    assert(tokens_view(result@) =~= before.push(t));
                    assert(tokens_view(result@) + lex_from(s@, next as int, opening) =~= lex_from(
                        s@,
                        0,
                        false,
                    ));
                    i = next;
                    in_tag = opening;
                },
                Err(_) => {
                    assert(tokens_view(result@) + lex_from(s@, s.len() as int, false) =~= lex_from(
                        s@,
                        0,
                        false,
                    ));
                    i = s.len();
                    in_tag = false;
                },
            }
        } else if s[i] == '>' {
            result.push(LexToken::OpenTagEnd);
            assert(tokens_view(result@) =~= before.push(TokenModel::OpenTagEnd));
            assert(tokens_view(result@) + lex_from(s@, i + 1, false) =~= lex_from(s@, 0, false));
            i = i + 1;
        } else {
            let e = text_end_exec(s, i + 1);
            let text = text_between(s, i, e);
            let ghost t = TokenModel::Text(text@);
            result.push(LexToken::Text(text));
            assert(tokens_view(result@) =~= before.push(t));
            assert(tokens_view(result@) + lex_from(s@, e as int, false) =~= lex_from(s@, 0, false));
            i = e;
        }
    }
    assert(tokens_view(result@) + lex_from(s@, i as int, in_tag) =~= tokens_view(result@));
    result
}

/// The character of the decimal digit `d`.
pub open spec fn digit_char(d: nat) -> char {
    if d == 0 {
        '0'
    } else if d == 1 {
        '1'
    } else if d == 2 {
        '2'
    } else if d == 3 {
        '3'
    } else if d == 4 {
        '4'
    } else if d == 5 {
        '5'
    } else if d == 6 {
        '6'
    } else if d == 7 {
        '7'
    } else if d == 8 {
        '8'
    } else {
        '9'
    }
}

/// The decimal numeral of `n`, without leading zeros.
pub open spec fn decimal(n: nat) -> Seq<char>
    decreases n,
{
    if n < 10 {
        seq![digit_char(n)]
    } else {
        decimal(n / 10) + seq![digit_char(n % 10)]
    }
}

/// The text of a position: `row: <row> col: <col>`.
pub open spec fn pos_text(p: Pos) -> Seq<char> {
    "row: "@ + decimal(p.row as nat) + " col: "@ + decimal(p.col as nat)
}

/// The text of a lexing error: its message and position, then, when it has
/// context, that context and a caret under the column.
pub open spec fn error_text(e: LexError) -> Seq<char> {
    let head = "LexError: "@ + e.message@ + " at "@ + pos_text(e.pos);
    match e.context {
        Some(c) => head + seq!['\n'] + c@ + seq!['\n'] + spaces(zero_based(e.pos.col as nat))
            + seq!['^'],
        None => head,
    }
}

fn digit_exec(d: usize) -> (r: char)
    requires
        d < 10,
    ensures
        r == digit_char(d as nat),
{
    if d == 0 {
        '0'
    } else if d == 1 {
        '1'
    } else if d == 2 {
        '2'
    } else if d == 3 {
        '3'
    } else if d == 4 {
        '4'
    } else if d == 5 {
        '5'
    } else if d == 6 {
        '6'
    } else if d == 7 {
        '7'
    } else if d == 8 {
        '8'
    } else {
        '9'
    }
}

fn push_decimal(n: usize, out: &mut Vec<char>)
    ensures
        final(out)@ == old(out)@ + decimal(n as nat),
    decreases n,
{
    if n >= 10 {
        push_decimal(n / 10, out);
    }
    out.push(digit_exec(n % 10));
    assert(out@ =~= old(out)@ + decimal(n as nat));
}

fn push_str(s: &str, out: &mut Vec<char>)
    ensures
        final(out)@ == old(out)@ + s@,
{
    let cs = chars_of(s);
    let mut i: usize = 0;
    while i < cs.len()
        invariant
            i <= cs.len(),
            cs@ == s@,
            out@ == old(out)@ + cs@.take(i as int),
        decreases cs.len() - i,
    {
        out.push(cs[i]);
        assert(cs@.take(i + 1) =~= cs@.take(i as int).push(cs@[i as int]));
        assert(out@ =~= old(out)@ + cs@.take(i + 1));
        i = i + 1;
    }
    assert(cs@.take(i as int) =~= cs@);
}

fn push_pos(p: Pos, out: &mut Vec<char>)
    ensures
        final(out)@ == old(out)@ + pos_text(p),
{
    push_str("row: ", out);
    push_decimal(p.row, out);
    push_str(" col: ", out);
    push_decimal(p.col, out);
    assert(out@ =~= old(out)@ + pos_text(p));
}

impl Pos {
    /// The position as text: `row: <row> col: <col>`.
    pub fn describe(&self) -> (r: String)
        ensures
            r@ == pos_text(*self),
    {
        let mut out: Vec<char> = Vec::new();
        push_pos(*self, &mut out);
        assert(out@ =~= pos_text(*self));
        string_of(&out)
    }
}

impl LexError {
    /// The error as text: `LexError: <message> at row: <row> col: <col>`,
    /// followed, when there is context, by the context line and a caret
    /// under the column.
    pub fn describe(&self) -> (r: String)
        ensures
            r@ == error_text(*self),
    {
        let mut out: Vec<char> = Vec::new();
        push_str("LexError: ", &mut out);
        push_str(self.message.as_str(), &mut out);
        push_str(" at ", &mut out);
        push_pos(self.pos, &mut out);
        let ghost head = out@;
        match &self.context {
            Some(c) => {
                out.push('\n');
                push_str(c.as_str(), &mut out);
                out.push('\n');
                let width: usize = if self.pos.col > 0 {
                    self.pos.col - 1
                } else {
                    0
                };
                let ghost mid = out@;
                let mut n: usize = 0;
                while n < width
                    invariant
                        n <= width,
                        out@ == mid + spaces(n as nat),
                    decreases width - n,
                {
                    out.push(' ');
                    assert(spaces((n + 1) as nat) =~= spaces(n as nat).push(' '));
                    n = n + 1;
                }
                out.push('^');
                assert(n == zero_based(self.pos.col as nat));
                assert(out@ =~= head + seq!['\n'] + c@ + seq!['\n'] + spaces(
                    zero_based(self.pos.col as nat),
                ) + seq!['^']);
            },
            None => {},
        }
        let r = string_of(&out);
        assert(r@ =~= error_text(*self));
        r
    }
}

} // verus!
