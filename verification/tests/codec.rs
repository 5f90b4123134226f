use base64::engine::general_purpose::{STANDARD, URL_SAFE};
use base64::Engine;
use singbox_commander::codec::{decode_base64, standard_form, text_of_decoded};

#[test]
fn base64_however_mangled() {
    let text = "节点 ???>>> {}";
    let plain = STANDARD.encode(text);
    assert_eq!(decode_base64(&plain).unwrap(), text);
    assert_eq!(decode_base64(&URL_SAFE.encode(text)).unwrap(), text);
    assert_eq!(decode_base64(plain.trim_end_matches('=')).unwrap(), text);
    let noisy: String = plain.chars().flat_map(|c| [c, ' ', '！', '\n', '#']).collect();
    assert_eq!(decode_base64(&noisy).unwrap(), text);
}

#[test]
fn base64_is_undone() {
    for text in ["", "a", "ab", "abc", "abcd", "~~~", "节点", "\u{10ffff}?"] {
        let plain = STANDARD.encode(text);
        assert_eq!(decode_base64(&plain), Ok(text.to_string()));
        assert_eq!(decode_base64(plain.trim_end_matches('=')), Ok(text.to_string()));
    }
    assert_eq!(decode_base64("YQ="), Ok("a".to_string()));
    assert_eq!(decode_base64("YQ"), Ok("a".to_string()));
}

#[test]
fn standard_forms() {
    assert_eq!(standard_form(""), "");
    assert_eq!(standard_form("a-b_"), "a+b/");
    assert_eq!(standard_form("a"), "a===");
    assert_eq!(standard_form("ab"), "ab==");
    assert_eq!(standard_form("abc"), "abc=");
    assert_eq!(standard_form("é１a.b"), "ab==");
    assert_eq!(standard_form(&standard_form("a-b")), standard_form("a-b"));
}

#[test]
fn base64_that_cannot_be_decoded() {
    let e = decode_base64("a").unwrap_err();
    let why = STANDARD.decode("a===").unwrap_err().to_string();
    assert_eq!(e, format!("Base64 解码失败，请检查节点链接是否完整正确: {}", why));
    assert_eq!(
        text_of_decoded(Err("x".to_string())).unwrap_err(),
        "Base64 解码失败，请检查节点链接是否完整正确: x"
    );
}

#[test]
fn base64_of_no_text() {
    let bytes = vec![0x61u8, 0xff];
    let why = String::from_utf8(bytes.clone()).unwrap_err().to_string();
    let expected = format!("节点内容不是有效 UTF-8: {}", why);
    assert_eq!(decode_base64(&STANDARD.encode(&bytes)).unwrap_err(), expected);
    assert_eq!(text_of_decoded(Ok(bytes)).unwrap_err(), expected);
    assert_eq!(text_of_decoded(Ok(vec![0x61])).unwrap(), "a");
}
