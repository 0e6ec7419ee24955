use klambda::symbols::{shen_rename_symbol, shen_unrename_symbol};

#[test]
fn reserved_words_get_the_prefix() {
    assert_eq!(shen_rename_symbol("if".to_string()), "shen_if");
    assert_eq!(shen_rename_symbol("true".to_string()), "shen_true");
    assert_eq!(shen_rename_symbol("Self".to_string()), "shen_Self");
}

#[test]
fn special_characters_become_mnemonics() {
    assert_eq!(shen_rename_symbol("=".to_string()), "__Equal__");
    assert_eq!(shen_rename_symbol("n->string".to_string()), "n__Dash____GT__string");
    assert_eq!(shen_rename_symbol("string?".to_string()), "string__Question__");
    assert_eq!(shen_rename_symbol("{a}".to_string()), "__CurlyL__a__CurlyR__");
    assert_eq!(shen_rename_symbol("plain".to_string()), "plain");
}

#[test]
fn unrename_reverses_both_tables() {
    assert_eq!(shen_unrename_symbol("shen_if".to_string()), "if");
    assert_eq!(shen_unrename_symbol("__Equal__".to_string()), "=");
    assert_eq!(shen_unrename_symbol("n__Dash____GT__string".to_string()), "n->string");
    assert_eq!(shen_unrename_symbol("plain".to_string()), "plain");
}

#[test]
fn rename_then_unrename_gives_the_symbol_back() {
    for s in ["if", "=", "<-address", "a_b", "x'", "@p", "foo-bar?", "shen", "_", "__", "a__b", "*", "{}"] {
        assert_eq!(shen_unrename_symbol(shen_rename_symbol(s.to_string())), s);
    }
}

#[test]
fn a_lookalike_does_not_read_back() {
    assert_eq!(shen_unrename_symbol(shen_rename_symbol("__Dash_=".to_string())), "-_Equal__");
    assert_eq!(shen_unrename_symbol(shen_rename_symbol("shen_if".to_string())), "if");
}
