use wth::lex::{get_tag, lex_tokens, LexError, LexToken, Pos, TagTypu};

#[test]
fn parse2_basic() {
    let input = "<A HREF=\"www.google.com\">Google</A>";
    let tokens = lex_tokens(input.to_string());
    assert_eq!(
        tokens,
        vec![
            LexToken::OpenTagStart(TagTypu::Anchor),
            LexToken::OpenTagEnd,
            LexToken::Text("Google".to_string()),
            LexToken::CloseTag(TagTypu::Anchor),
        ]
    );
}

#[test]
fn tag_kinds_by_name() {
    assert_eq!(TagTypu::from_string("H1".to_string()), TagTypu::Heading1);
    assert_eq!(TagTypu::from_string("h3".to_string()), TagTypu::Heading3);
    assert_eq!(TagTypu::from_string("title".to_string()), TagTypu::Title);
    assert_eq!(TagTypu::from_string("DT".to_string()), TagTypu::DataTable);
    assert_eq!(TagTypu::from_string("dl".to_string()), TagTypu::DataList);
    assert_eq!(TagTypu::from_string("a".to_string()), TagTypu::Anchor);
    assert_eq!(TagTypu::from_string("P".to_string()), TagTypu::Paragraph);
    assert_eq!(TagTypu::from_string("Dl".to_string()), TagTypu::Other);
    assert_eq!(TagTypu::from_string("".to_string()), TagTypu::Other);
}

#[test]
fn every_bare_close_angle_is_an_open_tag_end() {
    assert_eq!(lex_tokens(">".to_string()), vec![LexToken::OpenTagEnd]);
    assert_eq!(
        lex_tokens("a>b".to_string()),
        vec![
            LexToken::Text("a".to_string()),
            LexToken::OpenTagEnd,
            LexToken::Text("b".to_string()),
        ]
    );
}

#[test]
fn tag_names_end_at_space_close_angle_or_slash() {
    assert_eq!(
        lex_tokens("<A\t>".to_string()),
        vec![LexToken::OpenTagStart(TagTypu::Other), LexToken::OpenTagEnd]
    );
    assert_eq!(
        lex_tokens("<!x>".to_string()),
        vec![LexToken::OpenTagStart(TagTypu::Other), LexToken::OpenTagEnd]
    );
    assert_eq!(
        lex_tokens("<dt/>x".to_string()),
        vec![
            LexToken::OpenTagStart(TagTypu::DataTable),
            LexToken::OpenTagEnd,
            LexToken::Text("x".to_string()),
        ]
    );
}

#[test]
fn input_ending_inside_a_tag_ends_the_tokens() {
    assert_eq!(lex_tokens("a<H3 x=\"1\"".to_string()), vec![
        LexToken::Text("a".to_string()),
        LexToken::OpenTagStart(TagTypu::Heading3),
    ]);
    assert_eq!(lex_tokens("b</A".to_string()), vec![LexToken::Text("b".to_string())]);
    assert_eq!(lex_tokens("".to_string()), vec![]);
}

#[test]
fn get_tag_reports_where_an_unterminated_tag_starts() {
    let chars: Vec<char> = "x\n y</A open".chars().collect();
    match get_tag(&chars, 4) {
        Err(e) => {
            assert_eq!(e.pos.row, 2);
            assert_eq!(e.pos.col, 3);
        }
        Ok(_) => panic!("accepted an unterminated closing tag"),
    }
    let chars: Vec<char> = "<DL><p>".chars().collect();
    match get_tag(&chars, 0) {
        Ok((tok, next)) => {
            assert_eq!(tok, LexToken::OpenTagStart(TagTypu::DataList));
            assert_eq!(next, 3);
        }
        Err(_) => panic!("refused an opening tag"),
    }
}

#[test]
fn describe_renders_message_position_and_context() {
    let e = LexError {
        pos: Pos { col: 3, row: 120 },
        message: "unterminated comment".to_string(),
        context: Some("x y".to_string()),
    };
    assert_eq!(e.describe(), "LexError: unterminated comment at row: 120 col: 3\nx y\n  ^");
    let bare = LexError { pos: Pos { col: 10, row: 0 }, message: "m".to_string(), context: None };
    assert_eq!(bare.describe(), "LexError: m at row: 0 col: 10");
}

#[test]
fn pos_describe() {
    assert_eq!(Pos { col: 7, row: 42 }.describe(), "row: 42 col: 7");
}
