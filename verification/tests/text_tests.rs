use lupa::text::{chars_of, lines_of, split_chars, trim_chars, words_of};

fn strings(v: Vec<Vec<char>>) -> Vec<String> {
    v.into_iter().map(|c| c.into_iter().collect()).collect()
}

#[test]
fn lines_like_str_lines() {
    for s in ["", "\n", "a\nb", "a\r\nb\r\n", "a\rb\n", "a\n\nb\n\n", "x\r"] {
        let expected: Vec<String> = s.lines().map(|l| l.to_string()).collect();
        assert_eq!(strings(lines_of(&chars_of(s))), expected, "{:?}", s);
    }
}

#[test]
fn split_like_str_split() {
    for s in ["", ";", "a;b;", ";;x"] {
        let expected: Vec<String> = s.split(';').map(|l| l.to_string()).collect();
        assert_eq!(strings(split_chars(&chars_of(s), ';')), expected);
    }
}

#[test]
fn trim_and_words_like_std() {
    for s in ["", "  a b  ", "\u{3000}x\u{a0}", "\t\n", "a\u{2003}b"] {
        let t: String = trim_chars(&chars_of(s)).into_iter().collect();
        assert_eq!(t, s.trim());
        let w: Vec<String> = s.split_whitespace().map(|x| x.to_string()).collect();
        assert_eq!(strings(words_of(&chars_of(s))), w);
    }
}

