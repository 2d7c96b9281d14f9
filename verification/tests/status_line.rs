use rsiv::events::InputMode;
use rsiv::status_bar::{compile_format, render_tokens, StatusContext, StatusToken};

fn ctx() -> StatusContext {
    StatusContext {
        scale_percent: 100,
        index: 3,
        total: 12,
        path: "/pics/cat.png".to_string(),
        is_marked: false,
        input_mode: InputMode::Normal,
        prefix_count: None,
        slideshow_on: false,
        slideshow_delay_secs: 5,
        filter_text: String::new(),
    }
}

fn render(fmt: &str, ctx: &StatusContext) -> String {
    let tokens = compile_format(fmt);
    let mut out = String::new();
    render_tokens(&mut out, &tokens, ctx);
    out
}

#[test]
fn compile_splits_literals_and_fields() {
    let tokens = compile_format("%p | %i");
    assert_eq!(tokens.len(), 3);
    assert!(matches!(tokens[0], StatusToken::Path));
    match &tokens[1] {
        StatusToken::Literal(s) => assert_eq!(s, " | "),
        _ => panic!("expected the literal separator"),
    }
    assert!(matches!(tokens[2], StatusToken::Index));
}

#[test]
fn compile_keeps_unknown_and_escaped_percent_literal() {
    let tokens = compile_format("100%% a%qb %");
    assert_eq!(tokens.len(), 1);
    match &tokens[0] {
        StatusToken::Literal(s) => assert_eq!(s, "100% a%qb %"),
        _ => panic!("expected one literal"),
    }
}

#[test]
fn render_fills_the_standard_fields() {
    let c = ctx();
    assert_eq!(render("%p", &c), "/pics/cat.png");
    assert_eq!(render("%i", &c), "3/12");
    assert_eq!(render("%z", &c), "100%");
    assert_eq!(render("%m", &c), "");
    assert_eq!(render("%s", &c), "");
    assert_eq!(render("%P", &c), "");
}

#[test]
fn render_reflects_the_viewing_state() {
    let mut c = ctx();
    c.is_marked = true;
    c.slideshow_on = true;
    c.prefix_count = Some(42);
    assert_eq!(render("%m", &c), "*");
    assert_eq!(render("%s", &c), "5s");
    assert_eq!(render("%P", &c), "42");
    assert_eq!(render("%P %s %m %z %i", &c), "42 5s * 100% 3/12");
}

#[test]
fn render_shows_prompts_in_the_path_slot() {
    let mut c = ctx();
    c.input_mode = InputMode::Filtering;
    c.filter_text = "cat".to_string();
    assert_eq!(render("%p", &c), "/cat\u{2588}");
    c.input_mode = InputMode::WaitingForHandler;
    assert_eq!(render("%p", &c), "[Handler] Press key... (Esc to cancel)");
}

#[test]
fn render_spells_large_numbers() {
    let mut c = ctx();
    c.index = 0;
    c.total = 10905;
    assert_eq!(render("%i", &c), "0/10905");
}
