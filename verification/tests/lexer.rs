use lini::lexer::{lex, lex_expr, DrawOp, LineStyle, LinkMarker, LinkOp, TokKind};
use lini::resolve::Num;

fn kinds(src: &str) -> Vec<TokKind> {
    lex(src)
        .expect("lex ok")
        .into_iter()
        .map(|t| t.kind)
        .filter(|k| !matches!(k, TokKind::Newline))
        .collect()
}

fn expr_kinds(src: &str) -> Vec<TokKind> {
    lex_expr(src).expect("lex ok").into_iter().map(|t| t.kind).collect()
}

fn line_of(src: &str) -> LineStyle {
    match &kinds(src)[..] {
        [TokKind::LinkOp(op)] => op.line,
        other => panic!("expected one link op, got {other:?}"),
    }
}

fn ident(s: &str) -> TokKind {
    TokKind::Ident(s.to_string())
}

fn whole(n: i64) -> TokKind {
    TokKind::Number(Num::whole(n))
}

#[test]
fn hash_lexes_raw_run_for_colours_and_ids() {
    assert_eq!(kinds("#fff"), vec![TokKind::Hash("fff".into())]);
    assert_eq!(kinds("#ffaa00cc"), vec![TokKind::Hash("ffaa00cc".into())]);
    assert_eq!(kinds("#cat"), vec![TokKind::Hash("cat".into())]);
    assert_eq!(kinds("#load-balancer"), vec![TokKind::Hash("load-balancer".into())]);
}

#[test]
fn link_lines_grow_more_broken() {
    assert_eq!(line_of("->"), LineStyle::Solid);
    assert_eq!(line_of("-->"), LineStyle::Dashed);
    assert_eq!(line_of("--->"), LineStyle::Dotted);
    assert_eq!(line_of("~>"), LineStyle::Wavy);
}

#[test]
fn arrow_marker_sits_at_the_end() {
    let TokKind::LinkOp(op) = &kinds("->")[0] else {
        panic!("expected a link op");
    };
    assert_eq!(op.start, LinkMarker::Absent);
    assert_eq!(op.end, LinkMarker::Arrow);
}

#[test]
fn endpoint_side_is_ident_colon_ident() {
    assert_eq!(kinds("a:left"), vec![ident("a"), TokKind::Colon, ident("left")]);
}

#[test]
fn css_var_beats_the_dashed_line() {
    assert_eq!(kinds("--brand"), vec![TokKind::RawCssVar("brand".into())]);
}

#[test]
fn double_dot_is_two_dots_not_a_line() {
    assert_eq!(kinds(".."), vec![TokKind::Dot, TokKind::Dot]);
}

#[test]
fn string_values_are_trimmed() {
    assert_eq!(kinds("\" ABC \""), vec![TokKind::String("ABC".into())]);
    assert_eq!(kinds("\"a b\""), vec![TokKind::String("a b".into())]);
}

#[test]
fn measuring_ops_lex_free_standing_only() {
    assert_eq!(kinds("(-)"), vec![TokKind::DrawOp(DrawOp::Linear)]);
    assert_eq!(kinds("(o)"), vec![TokKind::DrawOp(DrawOp::Round)]);
    assert_eq!(kinds("(<)"), vec![TokKind::DrawOp(DrawOp::Angle)]);
    assert_eq!(
        kinds("foo(o)"),
        vec![ident("foo"), TokKind::LParen, ident("o"), TokKind::RParen]
    );
    assert_eq!(
        kinds("move(-90, 0)"),
        vec![
            ident("move"),
            TokKind::LParen,
            whole(-90),
            TokKind::Comma,
            whole(0),
            TokKind::RParen,
        ]
    );
    assert_eq!(kinds("(-90)")[0], TokKind::LParen);
}

#[test]
fn operators_lex_inside_parens_and_links_outside() {
    assert!(matches!(kinds("a -> b")[1], TokKind::LinkOp(_)));
    assert_eq!(
        kinds("(8 * 2)"),
        vec![TokKind::LParen, whole(8), TokKind::Star, whole(2), TokKind::RParen]
    );
    assert_eq!(
        kinds("(a - b, -2)"),
        vec![
            TokKind::LParen,
            ident("a"),
            TokKind::Minus,
            ident("b"),
            TokKind::Comma,
            whole(-2),
            TokKind::RParen,
        ]
    );
    assert_eq!(kinds("x = 5")[1], TokKind::Assign);
    assert_eq!(kinds("(a <= b)")[2], TokKind::Le);
    let err = lex("padding: 8 ^ 2").expect_err("bare ^ errors");
    assert!(err.message.contains("inside ( )"), "{err:?}");
}

#[test]
fn a_glued_dot_digit_run_is_a_copy_index_only_after_an_ident() {
    assert_eq!(
        kinds("plate.bolt.2"),
        vec![ident("plate"), TokKind::Dot, ident("bolt"), TokKind::Dot, whole(2)]
    );
    assert_eq!(
        kinds("bolt.2:top"),
        vec![ident("bolt"), TokKind::Dot, whole(2), TokKind::Colon, ident("top")]
    );
    assert_eq!(kinds("1.5"), vec![TokKind::Number(Num::new(15, 1))]);
    assert_eq!(kinds(".5"), vec![TokKind::Number(Num::new(5, 1))]);
    assert_eq!(kinds("a .5"), vec![ident("a"), TokKind::Number(Num::new(5, 1))]);
}

#[test]
fn reversed_angle_op_is_reserved() {
    let err = lex("a (>) b").expect_err("(>) is reserved");
    assert!(err.message.contains("the angle op is '(<)'"), "{err:?}");
}

#[test]
fn cardinality_markers_compose_min_max_on_both_sides() {
    let op_of = |src: &str| -> LinkOp {
        match &kinds(src)[..] {
            [TokKind::Ident(_), TokKind::LinkOp(op), TokKind::Ident(_)] => *op,
            other => panic!("expected `a OP b`, got {other:?}"),
        }
    };
    assert_eq!(op_of("a -+ b").end, LinkMarker::One);
    assert_eq!(op_of("a -< b").end, LinkMarker::Crow);
    assert_eq!(op_of("a -++ b").end, LinkMarker::ExactlyOne);
    assert_eq!(op_of("a -o+ b").end, LinkMarker::ZeroOrOne);
    assert_eq!(op_of("a -+< b").end, LinkMarker::OneOrMany);
    assert_eq!(op_of("a -o< b").end, LinkMarker::ZeroOrMany);
    assert_eq!(op_of("a +- b").start, LinkMarker::One);
    assert_eq!(op_of("a >- b").start, LinkMarker::Crow);
    assert_eq!(op_of("a ++- b").start, LinkMarker::ExactlyOne);
    assert_eq!(op_of("a +o- b").start, LinkMarker::ZeroOrOne);
    assert_eq!(op_of("a >+- b").start, LinkMarker::OneOrMany);
    assert_eq!(op_of("a >o- b").start, LinkMarker::ZeroOrMany);
    let both = op_of("a +-< b");
    assert_eq!((both.start, both.end), (LinkMarker::One, LinkMarker::Crow));
    assert_eq!(op_of("a +-+ b").start, LinkMarker::One);
    assert_eq!(op_of("a +-+ b").end, LinkMarker::One);
    assert_eq!(kinds("+5"), vec![whole(5)]);
    let err = lex("a -o b").expect_err("bare -o is an error");
    assert!(err.message.contains("'-o' needs a max glyph"), "{err:?}");
}

#[test]
fn spans_count_bytes_not_characters() {
    let toks = lex("\"é\" x").expect("lex ok");
    assert_eq!(toks.len(), 2);
    assert_eq!((toks[0].span.start, toks[0].span.end), (0, 4));
    assert_eq!((toks[1].span.start, toks[1].span.end), (5, 6));
}

#[test]
fn newlines_are_tokens_outside_parens_only() {
    let toks = lex("a\n\n  b").expect("lex ok");
    let ks: Vec<&TokKind> = toks.iter().map(|t| &t.kind).collect();
    assert_eq!(ks, vec![&ident("a"), &TokKind::Newline, &ident("b")]);
    assert_eq!((toks[1].span.start, toks[1].span.end), (1, 2));
    assert_eq!(lex("(a\nb)").expect("lex ok").len(), 4);
    assert_eq!(lex_expr("a\nb").expect("lex ok").len(), 2);
}

#[test]
fn comments_run_to_the_end_of_the_line() {
    assert_eq!(kinds("a // note -> b\nc"), vec![ident("a"), ident("c")]);
}

#[test]
fn percent_suffix_makes_a_percentage() {
    assert_eq!(kinds("50%"), vec![TokKind::Percent(Num::whole(50))]);
    assert_eq!(kinds("-12.5%"), vec![TokKind::Percent(Num::new(-125, 1))]);
}

#[test]
fn expression_mode_splits_on_minus_and_reads_exponents() {
    assert_eq!(expr_kinds("r-1"), vec![ident("r"), TokKind::Minus, whole(1)]);
    assert_eq!(expr_kinds("1e6"), vec![whole(1_000_000)]);
    assert_eq!(expr_kinds("1.5e-2"), vec![TokKind::Number(Num::new(15, 3))]);
    assert_eq!(expr_kinds("2e"), vec![whole(2), ident("e")]);
    assert_eq!(kinds("1e6"), vec![whole(1), ident("e6")]);
}

#[test]
fn string_escapes_and_their_errors() {
    assert_eq!(kinds("\"a\\\"b\\n\""), vec![TokKind::String("a\"b".into())]);
    let err = lex("\"ab").expect_err("unterminated");
    assert_eq!(err.message, "unterminated string literal");
    assert_eq!((err.span.start, err.span.end), (0, 3));
    let err = lex("\"a\\q\"").expect_err("bad escape");
    assert_eq!(err.message, "invalid escape sequence '\\q'");
    assert_eq!((err.span.start, err.span.end), (2, 4));
    let err = lex("\"a\\").expect_err("dangling escape");
    assert_eq!(err.message, "unterminated escape sequence");
    assert_eq!((err.span.start, err.span.end), (2, 3));
}

#[test]
fn unexpected_characters_are_quoted_by_their_first_byte() {
    let err = lex("a @ b").expect_err("@ is not lexable");
    assert_eq!(err.message, "unexpected character '@'");
    assert_eq!((err.span.start, err.span.end), (2, 3));
    let err = lex("\u{0}").expect_err("nul");
    assert_eq!(err.message, format!("unexpected character {:?}", '\u{0}'));
    for c in ['\u{1}', '\u{1b}', '\u{7f}', '\u{b}', '\u{c}', '`', '$', '%', '\\', '@'] {
        let src = c.to_string();
        let err = lex(&src).expect_err("not lexable");
        assert_eq!(err.message, format!("unexpected character {:?}", c));
    }
    let err = lex("é").expect_err("non-ASCII outside a string");
    assert_eq!(err.message, format!("unexpected character {:?}", 0xC3u8 as char));
    let err = lex("'x'").expect_err("single quote");
    assert!(err.message.starts_with("single quotes are not strings"));
}

#[test]
fn a_link_needs_a_line() {
    let err = lex("a <> b").expect_err("no line");
    assert_eq!(err.message, "expected link-op line after '<>'");
    assert_eq!((err.span.start, err.span.end), (2, 4));
}

#[test]
fn numbers_beyond_the_model_are_refused() {
    let err = lex("99999999999999999999").expect_err("too many digits");
    assert_eq!(err.message, "invalid number literal '99999999999999999999'");
    assert_eq!(kinds("0.000000000000000001"), vec![TokKind::Number(Num::new(1, 18))]);
}
