use yummy_indexing::analyzer::{chosung_char, AnalyzerService, AnalyzerServicePub};

#[test]
fn extract_chosung_of_hangul_greeting() {
    let analyzer = AnalyzerServicePub::new();
    assert_eq!(analyzer.extract_chosung("안녕하세요"), "ㅇㄴㅎㅅㅇ");
}

#[test]
fn extract_chosung_keeps_ascii_letters_and_digits() {
    let analyzer = AnalyzerServicePub::new();
    assert_eq!(analyzer.extract_chosung("맛집 ABC-123!"), "ㅁㅈABC123");
    assert_eq!(analyzer.extract_chosung("Pizza2go"), "Pizza2go");
}

#[test]
fn extract_chosung_of_block_edges() {
    let analyzer = AnalyzerServicePub::new();
    assert_eq!(analyzer.extract_chosung("가힣"), "ㄱㅎ");
    assert_eq!(analyzer.extract_chosung("까빠짜"), "ㄲㅃㅉ");
}

#[test]
fn extract_chosung_drops_other_characters() {
    let analyzer = AnalyzerServicePub::new();
    assert_eq!(analyzer.extract_chosung(""), "");
    assert_eq!(analyzer.extract_chosung(" \t-_.ㄱㅏé日"), "");
}

#[test]
fn extract_chosung_of_concatenation_is_concatenation() {
    let analyzer = AnalyzerServicePub::new();
    let a = "서울 Station 1";
    let b = "역삼동 맛집";
    let whole = analyzer.extract_chosung(&format!("{}{}", a, b));
    let parts = format!("{}{}", analyzer.extract_chosung(a), analyzer.extract_chosung(b));
    assert_eq!(whole, parts);
}

#[test]
fn extract_chosung_is_never_longer() {
    let analyzer = AnalyzerServicePub::new();
    let input = "한국어 text, 123 & 기호!";
    assert!(analyzer.extract_chosung(input).chars().count() <= input.chars().count());
}

#[test]
fn chosung_char_cases() {
    assert_eq!(chosung_char('한'), Some('ㅎ'));
    assert_eq!(chosung_char('z'), Some('z'));
    assert_eq!(chosung_char('0'), Some('0'));
    assert_eq!(chosung_char('@'), None);
}

#[test]
fn extract_chosung_yields_initials_or_ascii_alnum() {
    let analyzer = AnalyzerServicePub::new();
    let initials = "ㄱㄲㄴㄷㄸㄹㅁㅂㅃㅅㅆㅇㅈㅉㅊㅋㅌㅍㅎ";
    for c in analyzer.extract_chosung("뷁 똠양꿍 ☕ Café 42호점").chars() {
        assert!(initials.contains(c) || c.is_ascii_alphanumeric(), "unexpected {:?}", c);
    }
}
