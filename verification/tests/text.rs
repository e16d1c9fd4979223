use vala::order::{compare, Cmp3};
use vala::text::{
    before_char_exec, chars_of, find_char_exec, find_sub_exec, split_char_exec, split_lines,
    string_of, strip_prefix_exec, trim_chars, trim_end_matches,
};

const SAMPLES: &[&str] = &[
    "",
    "a",
    "\n",
    "\n\n",
    "a\n",
    "a\nb",
    "a\r\nb\r\n",
    "a\rb\r",
    " \t x y \u{3000}\u{85}",
    "\u{2028}\u{a0}é{ü}\u{202f}",
    "x,y<a,b>,,z",
    "class Foo<T> : Bar<T>, Baz {",
    "cheader_filename = \"vala.h\"",
];

fn s(v: &Vec<char>) -> String {
    string_of(v)
}

#[test]
fn lines_match_std() {
    for src in SAMPLES {
        let got: Vec<String> = split_lines(&chars_of(src)).iter().map(s).collect();
        let want: Vec<String> = src.lines().map(|l| l.to_string()).collect();
        assert_eq!(got, want, "{:?}", src);
    }
}

#[test]
fn trim_matches_std() {
    for src in SAMPLES {
        assert_eq!(s(&trim_chars(&chars_of(src))), src.trim(), "{:?}", src);
        assert_eq!(
            s(&trim_end_matches(&chars_of(src), '{')),
            src.trim_end_matches('{'),
            "{:?}",
            src
        );
    }
}

#[test]
fn split_and_find_match_std() {
    for src in SAMPLES {
        let v = chars_of(src);
        let got: Vec<String> = split_char_exec(&v, ',').iter().map(s).collect();
        let want: Vec<String> = src.split(',').map(|p| p.to_string()).collect();
        assert_eq!(got, want, "{:?}", src);
        assert_eq!(s(&before_char_exec(&v, '<')), src.split('<').next().unwrap());
        let byte_to_char = |b: usize| src[..b].chars().count();
        assert_eq!(find_char_exec(&v, ':'), src.find(':').map(byte_to_char));
        assert_eq!(
            find_sub_exec(&v, &chars_of("cheader")),
            src.find("cheader").map(byte_to_char)
        );
        assert_eq!(
            strip_prefix_exec(&v, "class ").map(|r| s(&r)),
            src.strip_prefix("class ").map(|r| r.to_string())
        );
    }
}

#[test]
fn compare_matches_string_order() {
    for a in SAMPLES {
        for b in SAMPLES {
            let got = match compare(&chars_of(a), &chars_of(b)) {
                Cmp3::Less => std::cmp::Ordering::Less,
                Cmp3::Equal => std::cmp::Ordering::Equal,
                Cmp3::Greater => std::cmp::Ordering::Greater,
            };
            assert_eq!(got, a.cmp(b), "{:?} {:?}", a, b);
        }
    }
}
