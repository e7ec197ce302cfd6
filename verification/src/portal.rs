use vstd::prelude::*;

verus! {

/// Normalized session state of one portal page: whether a challenge is
/// active, the session identifier every further request must carry, and the
/// optional human-readable status message.
#[derive(Debug)]
pub struct CaptchaState {
    pub captcha_present: bool,
    pub session_id: String,
    pub message: Option<String>,
}

/// The one way a portal page can be malformed: the session-id form field is
/// missing, so no further request can be made from it.
#[derive(Clone, Copy, PartialEq, Eq, Structural, Debug)]
pub enum ParseError {
    MissingSessionId,
}

/// The value of the page's session-id form field (the `value` attribute of
/// the first `input` element named `PHPSESSID`), if the page has one.
pub uninterp spec fn page_session_id(page: Seq<char>) -> Option<Seq<char>>;

/// Whether the page carries the challenge container element (the element
/// whose id is `captcha`).
pub uninterp spec fn page_has_challenge(page: Seq<char>) -> bool;

/// The page's status message: the trimmed text of the first block matched by
/// the two-level status selector (a centered cell holding a `DIV`), if any.
pub uninterp spec fn page_message(page: Seq<char>) -> Option<Seq<char>>;

/// Relies on tl::parse and tl::VDom::query_selector: the value attribute of
/// the first `input` element named `PHPSESSID` is a function of the page
/// text alone. tl::parse only fails on pages longer than `u32::MAX`, which
/// the precondition rules out.
#[verifier::external_body]
fn query_session_id(page: &str) -> (r: Option<String>)
    requires
        page@.len() <= 0xffff_ffff,
    ensures
        r is Some <==> page_session_id(page@) is Some,
        r matches Some(s) ==> page_session_id(page@) == Some(s@),
{
    let dom = match tl::parse(page, tl::ParserOptions::default()) {
        Ok(d) => d,
        Err(_) => return None,
    };
    let parser = dom.parser();
    dom.query_selector("input[name=PHPSESSID]")
        .and_then(|mut x| x.next())
        .and_then(|x| x.get(parser))
        .and_then(|x| x.as_tag())
        .and_then(|x| x.attributes().get("value").flatten())
        .and_then(|x| x.try_as_utf8_str())
        .map(|x| x.to_string())
}

/// Relies on tl::parse and tl::VDom::get_element_by_id: whether the page
/// holds an element with id `captcha` is a function of the page text alone.
#[verifier::external_body]
fn query_has_challenge(page: &str) -> (r: bool)
    requires
        page@.len() <= 0xffff_ffff,
    ensures
        r == page_has_challenge(page@),
{
    match tl::parse(page, tl::ParserOptions::default()) {
        Ok(dom) => dom.get_element_by_id("captcha").is_some(),
        Err(_) => false,
    }
}

/// Relies on tl::parse, tl::VDom::query_selector and tl::HTMLTag::inner_text:
/// the trimmed text of the first `DIV` nested under a `TD[align=center]`
/// cell is a function of the page text alone. The walk through the cells'
/// children works around tl's querying of nested selectors.
#[verifier::external_body]
fn query_message(page: &str) -> (r: Option<String>)
    requires
        page@.len() <= 0xffff_ffff,
    ensures
        r is Some <==> page_message(page@) is Some,
        r matches Some(m) ==> page_message(page@) == Some(m@),
{
    let dom = match tl::parse(page, tl::ParserOptions::default()) {
        Ok(d) => d,
        Err(_) => return None,
    };
    let parser = dom.parser();
    dom.query_selector("TD[align=center]")
        .and_then(|x| {
            x.filter_map(|e| e.get(parser).and_then(|e| e.children()))
                .flat_map(|e| e.all(parser))
                .filter_map(|e| e.as_tag())
                .find(|e| *e.name() == *"DIV")
        })
        .map(|x| x.inner_text(parser).trim().to_string())
}

/// Parses a portal page into its normalized session state.
///
/// A page without the session-id field is malformed and rejected, whatever
/// else it holds; a missing status message is normal and yields `None`. The
/// challenge flag is a pure presence check of the challenge container.
pub fn parse_page(page: &str) -> (r: Result<CaptchaState, ParseError>)
    requires
        page@.len() <= 0xffff_ffff,
    ensures
        r is Err <==> page_session_id(page@) is None,
        r matches Err(e) ==> e == ParseError::MissingSessionId,
        r matches Ok(st) ==> {
            &&& Some(st.session_id@) == page_session_id(page@)
            &&& st.captcha_present == page_has_challenge(page@)
            &&& (st.message is Some <==> page_message(page@) is Some)
            &&& (st.message matches Some(m) ==> page_message(page@) == Some(m@))
        },
{
    let session_id = match query_session_id(page) {
        Some(s) => s,
        None => {
            return Err(ParseError::MissingSessionId);
        },
    };
    let captcha_present = query_has_challenge(page);
    let message = query_message(page);
    Ok(CaptchaState { captcha_present, session_id, message })
}

} // verus!
