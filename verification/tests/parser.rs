use aero2solver::portal::{parse_page, ParseError};

const FULL_PAGE: &str = "<html><body>\
<form method=\"POST\"><input type=\"hidden\" name=\"PHPSESSID\" value=\"abc123\" />\
<div id=\"captcha\"><img src=\"getCaptcha.html\" /></div></form>\
<table><tr><TD align=\"center\"><DIV>  Wrong solution  </DIV></TD></tr></table>\
</body></html>";

#[test]
fn parse_extracts_everything() {
    let st = parse_page(FULL_PAGE).unwrap();
    assert!(st.captcha_present);
    assert_eq!(st.session_id, "abc123");
    assert_eq!(st.message.as_deref(), Some("Wrong solution"));
}

#[test]
fn parse_missing_session_id_fails() {
    // Even a page that shows a challenge and a message is malformed without
    // the session-id field.
    let page = "<html><body><form></form>\
<div id=\"captcha\"></div>\
<TD align=\"center\"><DIV>msg</DIV></TD>\
</body></html>";
    assert_eq!(parse_page(page).unwrap_err(), ParseError::MissingSessionId);
    assert_eq!(parse_page("").unwrap_err(), ParseError::MissingSessionId);
    assert_eq!(
        parse_page("<input name=\"OTHER\" value=\"abc\" />").unwrap_err(),
        ParseError::MissingSessionId
    );
}

#[test]
fn parse_no_message_is_none() {
    let page = "<html><body>\
<input name=\"PHPSESSID\" value=\"sess42\" />\
<div id=\"captcha\"></div>\
</body></html>";
    let st = parse_page(page).unwrap();
    assert!(st.captcha_present);
    assert_eq!(st.session_id, "sess42");
    assert_eq!(st.message, None);
}

#[test]
fn parse_no_challenge_container() {
    let page = "<html><body>\
<input name=\"PHPSESSID\" value=\"sess43\" />\
<p>all good</p>\
</body></html>";
    let st = parse_page(page).unwrap();
    assert!(!st.captcha_present);
    assert_eq!(st.session_id, "sess43");
    assert_eq!(st.message, None);
}

#[test]
fn parse_centered_cell_without_div_is_none() {
    let page = "<html><body>\
<input name=\"PHPSESSID\" value=\"sess44\" />\
<TD align=\"center\">bare text, no block</TD>\
</body></html>";
    let st = parse_page(page).unwrap();
    assert_eq!(st.message, None);
}
