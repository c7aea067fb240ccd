use cecho::format_text;

#[test]
fn test_format_text_no_formatting() {
    let input = "hello world";
    let expected = "hello world";
    assert_eq!(format_text(input), expected);
}

#[test]
fn test_format_text_single_color() {
    let input = "hello {red: bob}";
    let expected = "hello \x1b[31mbob\x1b[0m";
    assert_eq!(format_text(input), expected);
}

#[test]
fn test_format_text_color_with_style() {
    let input = "hello {red underline: bob}";
    let expected = "hello \x1b[31m\x1b[4mbob\x1b[0m";
    assert_eq!(format_text(input), expected);
}

#[test]
fn test_format_text_multiple_formats() {
    let input = "hello {red underline: bob}, do you like {green: race cars}?";
    let expected = "hello \x1b[31m\x1b[4mbob\x1b[0m, do you like \x1b[32mrace cars\x1b[0m?";
    assert_eq!(format_text(input), expected);
}

#[test]
fn test_format_text_bold_and_italic() {
    let input = "This is {bold: important} and {italic: emphasized}";
    let expected = "This is \x1b[1mimportant\x1b[0m and \x1b[3memphasized\x1b[0m";
    assert_eq!(format_text(input), expected);
}

#[test]
fn test_format_text_malformed() {
    let input = "This has {no colon} and {unclosed brace and normal text";
    let expected = "This has {no colon} and {unclosed brace and normal text";
    assert_eq!(format_text(input), expected);
}

#[test]
fn test_single_color_round_trip() {
    assert_eq!(format_text("{red: X}"), "\x1b[31mX\x1b[0m");
}

#[test]
fn test_multi_token_order() {
    assert_eq!(format_text("{red underline: X}"), "\x1b[31m\x1b[4mX\x1b[0m");
    assert_eq!(format_text("{underline red: X}"), "\x1b[4m\x1b[31mX\x1b[0m");
}

#[test]
fn test_unknown_token_no_op() {
    assert_eq!(format_text("{glorp: X}"), "X");
}

#[test]
fn test_unknown_token_combinations() {
    assert_eq!(format_text("{glorp blarg: X}"), "X");
    assert_eq!(format_text("{blarg glorp: X}"), "X");
    assert_eq!(format_text("{glorp glorp glorp: X}"), "X");
}

#[test]
fn test_malformed_preserved_literally() {
    assert_eq!(format_text("{no colon}"), "{no colon}");
    assert_eq!(format_text("{unclosed"), "{unclosed");
}

#[test]
fn test_multi_block_independence() {
    assert_eq!(
        format_text("a {red: b}, {green: c}"),
        "a \x1b[31mb\x1b[0m, \x1b[32mc\x1b[0m"
    );
}

#[test]
fn test_first_close_wins() {
    assert_eq!(format_text("{red: a {x} b}"), "\x1b[31ma {x\x1b[0m b}");
}

#[test]
fn test_empty_input() {
    assert_eq!(format_text(""), "");
}

#[test]
fn test_empty_body_is_wrapped() {
    assert_eq!(format_text("{red:}"), "\x1b[31m\x1b[0m");
}

#[test]
fn test_empty_spec_passes_body_through() {
    assert_eq!(format_text("{: text}"), "text");
    assert_eq!(format_text("{:}"), "");
}

#[test]
fn test_empty_braces_kept() {
    assert_eq!(format_text("{}"), "{}");
}

#[test]
fn test_lone_closing_brace_kept() {
    assert_eq!(format_text("a } b"), "a } b");
}

#[test]
fn test_keywords_are_case_insensitive() {
    assert_eq!(format_text("{RED: x}"), "\x1b[31mx\x1b[0m");
    assert_eq!(format_text("{Bold: x}"), "\x1b[1mx\x1b[0m");
    assert_eq!(format_text("{uNdErLiNe: x}"), "\x1b[4mx\x1b[0m");
}

#[test]
fn test_extra_whitespace_in_spec() {
    assert_eq!(format_text("{  red   bold  : x}"), "\x1b[31m\x1b[1mx\x1b[0m");
}

#[test]
fn test_body_is_trimmed() {
    assert_eq!(format_text("{red:   x   }"), "\x1b[31mx\x1b[0m");
}

#[test]
fn test_repeated_token_emits_code_twice() {
    assert_eq!(format_text("{red red: x}"), "\x1b[31m\x1b[31mx\x1b[0m");
}

#[test]
fn test_all_color_codes() {
    assert_eq!(format_text("{black: x}"), "\x1b[30mx\x1b[0m");
    assert_eq!(format_text("{red: x}"), "\x1b[31mx\x1b[0m");
    assert_eq!(format_text("{green: x}"), "\x1b[32mx\x1b[0m");
    assert_eq!(format_text("{yellow: x}"), "\x1b[33mx\x1b[0m");
    assert_eq!(format_text("{blue: x}"), "\x1b[34mx\x1b[0m");
    assert_eq!(format_text("{magenta: x}"), "\x1b[35mx\x1b[0m");
    assert_eq!(format_text("{cyan: x}"), "\x1b[36mx\x1b[0m");
    assert_eq!(format_text("{white: x}"), "\x1b[37mx\x1b[0m");
}

#[test]
fn test_all_style_codes() {
    assert_eq!(format_text("{bold: x}"), "\x1b[1mx\x1b[0m");
    assert_eq!(format_text("{dim: x}"), "\x1b[2mx\x1b[0m");
    assert_eq!(format_text("{italic: x}"), "\x1b[3mx\x1b[0m");
    assert_eq!(format_text("{underline: x}"), "\x1b[4mx\x1b[0m");
    assert_eq!(format_text("{blink: x}"), "\x1b[5mx\x1b[0m");
    assert_eq!(format_text("{reverse: x}"), "\x1b[7mx\x1b[0m");
    assert_eq!(format_text("{strikethrough: x}"), "\x1b[9mx\x1b[0m");
}

#[test]
fn test_unknown_mixed_with_known() {
    assert_eq!(format_text("{glorp red: x}"), "\x1b[31mx\x1b[0m");
}

#[test]
fn test_second_colon_stays_in_body() {
    assert_eq!(format_text("{red: a:b}"), "\x1b[31ma:b\x1b[0m");
}

#[test]
fn test_unicode_text_passes_through() {
    assert_eq!(format_text("héllo {red: wörld}"), "héllo \x1b[31mwörld\x1b[0m");
}
