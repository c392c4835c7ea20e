use tealr::lex::{compare_bytes, compare_text, Rank};
use tealr::text::{chars_of, comment_lines, decode_name, encode_text, join};

fn as_std_writes(text: &str) -> String {
    let mut out = String::new();
    for line in text.lines() {
        out.push_str(&format!("--{}\n", line));
    }
    out
}

#[test]
fn join_puts_the_separator_between_items() {
    assert_eq!(join(&vec![], ", "), "");
    assert_eq!(join(&vec!["a".to_string()], ", "), "a");
    assert_eq!(join(&vec!["a".to_string(), "b".to_string(), "".to_string()], ", "), "a, b, ");
}

#[test]
fn comment_lines_of_plain_text() {
    assert_eq!(comment_lines(""), "");
    assert_eq!(comment_lines("one"), "--one\n");
    assert_eq!(comment_lines("one\ntwo"), "--one\n--two\n");
}

#[test]
fn comment_lines_at_line_endings() {
    assert_eq!(comment_lines("one\n"), "--one\n");
    assert_eq!(comment_lines("one\n\ntwo"), "--one\n--\n--two\n");
    assert_eq!(comment_lines("\n"), "--\n");
    assert_eq!(comment_lines("one\r\ntwo\r\n"), "--one\n--two\n");
    assert_eq!(comment_lines("one\r"), "--one\r\n");
    assert_eq!(comment_lines("\r\n"), "--\n");
    assert_eq!(comment_lines("a\rb\n"), "--a\rb\n");
}

#[test]
fn comment_lines_split_as_std_lines_does() {
    let samples = [
        "",
        "x",
        "x\n",
        "x\ny",
        "x\r\ny",
        "\n\n",
        "\r\n\r\n",
        "\r",
        "a\r\r\nb",
        "grüße\nдва\n三",
        "tail\n\r",
        "\n\rx",
    ];
    for sample in samples {
        assert_eq!(comment_lines(sample), as_std_writes(sample), "for {:?}", sample);
    }
}

#[test]
fn chars_and_bytes_of_text() {
    assert_eq!(chars_of("aß三"), vec!['a', 'ß', '三']);
    assert_eq!(encode_text("aß"), vec![0x61, 0xc3, 0x9f]);
    assert_eq!(encode_text(""), Vec::<u8>::new());
}

#[test]
fn decode_name_reads_valid_utf8_only() {
    assert_eq!(decode_name(&vec![0x61, 0xc3, 0x9f]).unwrap(), "aß");
    assert_eq!(decode_name(&vec![]).unwrap(), "");
    let err = decode_name(&vec![0x61, 0xc3]).unwrap_err();
    assert_eq!(err.name, vec![0x61, 0xc3]);
    assert!(decode_name(&vec![0xed, 0xa0, 0x80]).is_err());
    assert!(decode_name(&vec![0xc0, 0x80]).is_err());
}

#[test]
fn bytes_are_ordered_lexicographically() {
    assert_eq!(compare_bytes(b"", b""), Rank::Same);
    assert_eq!(compare_bytes(b"", b"a"), Rank::Before);
    assert_eq!(compare_bytes(b"a", b""), Rank::After);
    assert_eq!(compare_bytes(b"ab", b"abc"), Rank::Before);
    assert_eq!(compare_bytes(b"abd", b"abc"), Rank::After);
    assert_eq!(compare_bytes(b"b", b"abc"), Rank::After);
    assert_eq!(compare_bytes(&[0x7f], &[0x80]), Rank::Before);
    assert_eq!(compare_bytes(b"same", b"same"), Rank::Same);
}

#[test]
fn text_is_ordered_as_str_is() {
    let samples = ["", "a", "B", "ab", "abc", "b", "ß", "z", "三", "é"];
    for a in samples {
        for b in samples {
            let want = match a.cmp(b) {
                std::cmp::Ordering::Less => Rank::Before,
                std::cmp::Ordering::Equal => Rank::Same,
                std::cmp::Ordering::Greater => Rank::After,
            };
            assert_eq!(compare_text(a, b), want, "{:?} and {:?}", a, b);
        }
    }
}
