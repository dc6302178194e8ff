use opensquare::support::{xss_check, TextError};

#[test]
fn plain_text_passes() {
    assert_eq!(xss_check(b"a bounty for a logo"), Ok(()));
    assert_eq!(xss_check(b""), Ok(()));
}

#[test]
fn angle_brackets_are_refused() {
    assert_eq!(xss_check(b"<script>"), Err(TextError::AngleBracket));
    assert_eq!(xss_check(b"a > b"), Err(TextError::AngleBracket));
    assert_eq!(xss_check(b"x<"), Err(TextError::AngleBracket));
}
