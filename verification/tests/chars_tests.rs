use lupa::chars::{
    character_order, character_subtitle, combine_char_scores, discover_chars, from_unicode_data_line,
    is_control, keep_identifier, parse_hex_u32, rank_characters, UnicodeIdentifier,
};
use lupa::text::chars_of;

fn ident(c: char, name: &str, alias: &str) -> UnicodeIdentifier {
    UnicodeIdentifier { character: c, name: name.to_string(), alias: alias.to_string() }
}

#[test]
fn hexadecimal_code_points() {
    assert_eq!(parse_hex_u32(&chars_of("0041")), Some(0x41));
    assert_eq!(parse_hex_u32(&chars_of("+1F600")), Some(0x1F600));
    assert_eq!(parse_hex_u32(&chars_of("ffffffff")), Some(u32::MAX));
    assert_eq!(parse_hex_u32(&chars_of("100000000")), None);
    assert_eq!(parse_hex_u32(&chars_of("")), None);
    assert_eq!(parse_hex_u32(&chars_of("+")), None);
    assert_eq!(parse_hex_u32(&chars_of("12G")), None);
    assert_eq!(parse_hex_u32(&chars_of("-1")), None);
}

#[test]
fn unicode_data_lines() {
    let a = from_unicode_data_line("0041;LATIN CAPITAL LETTER A;Lu;0;L;;;;;N;;;;0061;").unwrap();
    assert_eq!(a.character, 'A');
    assert_eq!(a.name, "LATIN CAPITAL LETTER A");
    assert_eq!(a.alias, "");
    let small = from_unicode_data_line("0061;LATIN SMALL LETTER A;Ll;0;L;;;;;N;;;0041;;0041").unwrap();
    assert_eq!(small.alias, "0041");
    let short = from_unicode_data_line("00E9;LATIN SMALL LETTER E WITH ACUTE").unwrap();
    assert_eq!(short.character, 'é');
    assert_eq!(short.alias, "");
    assert!(from_unicode_data_line("E000;<Private Use, First>;Co;0;L;;;;;N;;;;;").is_none());
    assert!(from_unicode_data_line("D800;<Non Private Use High Surrogate, First>;Cs").is_none());
    assert!(from_unicode_data_line("XYZ;BAD").is_none());
    assert!(from_unicode_data_line("0001;<control>;Cc;0;BN;;;;;N;START OF HEADING;;;;").is_none());
    assert!(from_unicode_data_line("009F;<control>;Cc;0;BN;;;;;N;APPLICATION PROGRAM COMMAND;;;;").is_none());
    assert!(from_unicode_data_line("00A0;NO-BREAK SPACE;Zs;0;CS;<noBreak> 0020;;;;N;NON-BREAKING SPACE;;;;").is_some());
    assert!(from_unicode_data_line("").is_none());
    assert!(from_unicode_data_line("1F680;ROCKET;So;0;ON;;;;;N;;;;;").is_none());
}

#[test]
fn discover_reads_each_line() {
    let data = "0041;LATIN CAPITAL LETTER A;Lu\nE000;<Private Use, First>;Co\n0042;LATIN CAPITAL LETTER B;Lu\n";
    let found = discover_chars(data);
    assert_eq!(found.len(), 2);
    assert_eq!(found[0].character, 'A');
    assert_eq!(found[1].character, 'B');
}

#[test]
fn characters_ordered_by_name_length() {
    let v = vec![ident('a', "AB", ""), ident('b', "ABCD", ""), ident('c', "XY", ""), ident('d', "A", "")];
    assert_eq!(character_order(&v), vec![1, 2, 0, 3]);
}

#[test]
fn char_score_threshold() {
    assert_eq!(combine_char_scores(Some(60), None), Some(60));
    assert_eq!(combine_char_scores(Some(59), Some(70)), Some(70));
    assert_eq!(combine_char_scores(Some(59), Some(10)), None);
    assert_eq!(combine_char_scores(None, None), None);
}

#[test]
fn characters_rank_by_name() {
    let v = vec![ident('A', "LATIN CAPITAL LETTER A", ""), ident('Ω', "GREEK CAPITAL LETTER OMEGA", "")];
    let r = rank_characters(&v, "!greek capital letter omega", 5);
    assert_eq!(r, vec![1]);
    assert!(rank_characters(&v, "!zzzz", 5).is_empty());
}

#[test]
fn character_subtitles() {
    assert_eq!(character_subtitle("LATIN CAPITAL LETTER A", ""), "latin capital letter a");
    assert_eq!(character_subtitle("DIGIT ONE", "ONE  X"), "digit one; one x");
}

#[test]
fn shown_characters_match_their_query() {
    let chars = vec![
        ident('a', "LATIN SMALL LETTER A", ""),
        ident('b', "LATIN SMALL LETTER B", ""),
        ident('∑', "N-ARY SUMMATION", ""),
        ident('\u{1}', "<control>", "START OF HEADING"),
    ];
    let r = rank_characters(&chars, "!letter", 1);
    assert_eq!(r.len(), 1);
    assert!(chars[r[0]].name.contains("LETTER"));
    assert!(rank_characters(&chars, "!zzzz", 3).is_empty());
}

#[test]
fn control_characters() {
    for c in ['\u{0}', '\u{1F}', '\u{7F}', '\u{9F}', 'a', '\u{A0}', '\u{200B}'] {
        assert_eq!(is_control(c), c.is_control());
    }
}

#[test]
fn kept_identifiers_are_visible_and_defined() {
    let u = ident('a', "LATIN SMALL LETTER A", "");
    assert_eq!(keep_identifier(u.clone(), false, true).map(|k| k.character), Some('a'));
    assert!(keep_identifier(u.clone(), true, true).is_none());
    assert!(keep_identifier(u, false, false).is_none());
}
