//! Talking to the server: where requests go, and what replies mean.

use vstd::prelude::*;

verus! {

/// Whether a header may hold `c`: anything but control characters, save the tab.
pub open spec fn is_header_char(c: char) -> bool {
    let n = c as int;
    (n >= 32 && n != 127) || n == 9
}

/// Whether a header may hold `text`.
pub open spec fn is_header_text(text: Seq<char>) -> bool {
    forall|i: int| 0 <= i < text.len() ==> is_header_char(#[trigger] text[i])
}

/// Asks `reqwest::header::HeaderValue::from_str` whether a header may hold `text`.
/// The contract claims that it refuses the control characters other than the tab,
/// and nothing else; characters beyond ASCII are encoded in bytes that it accepts.
#[verifier::external_body]
fn header_accepts(text: &str) -> (answer: bool)
    ensures
        answer == is_header_text(text@),
{
    reqwest::header::HeaderValue::from_str(text).is_ok()
}

/// The value of the header that carries the API key.
pub open spec fn authorization_text(api_key: Seq<char>) -> Seq<char> {
    "MediaBrowser Token=\""@ + api_key + "\""@
}

/// Writes the value of the header that carries the API key. `None` where the key
/// cannot stand in a header.
pub fn authorization(api_key: &str) -> (value: Option<String>)
    ensures
        value is Some <==> is_header_text(api_key@),
        value matches Some(text) ==> text@ == authorization_text(api_key@),
{
    let mut text = String::new();
    text.append("MediaBrowser Token=\"");
    text.append(api_key);
    text.append("\"");
    proof {
        reveal_strlit("MediaBrowser Token=\"");
        reveal_strlit("\"");
        let prefix = "MediaBrowser Token=\""@;
        assert(text@ =~= authorization_text(api_key@));
        assert(is_header_text(prefix));
        assert(is_header_text("\""@));
        assert forall|i: int| 0 <= i < api_key@.len() && is_header_text(text@) implies is_header_char(
            #[trigger] api_key@[i],
        ) by {
            assert(text@[prefix.len() + i] == api_key@[i]);
        }
        if is_header_text(api_key@) {
            assert forall|i: int| 0 <= i < text@.len() implies is_header_char(#[trigger] text@[i]) by {
                if i < prefix.len() {
                    assert(text@[i] == prefix[i]);
                } else if i < prefix.len() + api_key@.len() {
                    assert(text@[i] == api_key@[i - prefix.len()]);
                } else {
                    assert(text@[i] == "\""@[0]);
                }
            }
        }
    }
    if header_accepts(text.as_str()) {
        Some(text)
    } else {
        None
    }
}

/// The status `code` as it is shown: the number and what it stands for.
pub uninterp spec fn status_text(code: u16) -> Seq<char>;

/// Shows a status code with the `Display` of `reqwest::StatusCode`. The contract
/// names the result, a function of the code alone, and claims that it begins with
/// the code in decimal and a space.
#[verifier::external_body]
fn show_status(code: u16) -> (text: String)
    requires
        100 <= code <= 999,
    ensures
        text@ == status_text(code),
        (crate::text::decimal(code as nat) + " "@).is_prefix_of(text@),
{
    reqwest::StatusCode::from_u16(code).unwrap().to_string()
}

/// Whether a reply with the status `code` carries what was asked for.
pub open spec fn is_success(code: u16) -> bool {
    200 <= code < 300
}

/// What is told of a reply with the status `code`, shown as `shown`; `context` says
/// what was tried.
pub open spec fn failure_text(code: u16, shown: Seq<char>, context: Seq<char>) -> Seq<char> {
    if code == 401 {
        context + ": Authentication failed (401). Check your API key."@
    } else if code == 403 {
        context + ": Permission denied (403). User may not have delete permission."@
    } else if code == 404 {
        context + ": Item not found (404)."@
    } else if 500 <= code < 600 {
        context + ": Server error ("@ + shown + ")"@
    } else if 400 <= code < 500 {
        context + ": Client error ("@ + shown + ")"@
    } else {
        context + ": Unknown error ("@ + shown + ")"@
    }
}

/// Writes what is told of a reply with the status `code`, shown as `shown`.
pub fn describe_failure(code: u16, shown: &str, context: &str) -> (text: String)
    ensures
        text@ == failure_text(code, shown@, context@),
{
    let mut text = context.to_owned();
    if code == 401 {
        text.append(": Authentication failed (401). Check your API key.");
        return text;
    }
    if code == 403 {
        text.append(": Permission denied (403). User may not have delete permission.");
        return text;
    }
    if code == 404 {
        text.append(": Item not found (404).");
        return text;
    }
    if 500 <= code && code < 600 {
        text.append(": Server error (");
    } else if 400 <= code && code < 500 {
        text.append(": Client error (");
    } else {
        text.append(": Unknown error (");
    }
    text.append(shown);
    text.append(")");
    text
}

/// Writes what is told of a reply with the status `code`. Where the code is shown, it
/// is with the number first.
pub fn handle_api_error(code: u16, context: &str) -> (text: String)
    requires
        100 <= code <= 999,
    ensures
        text@ == failure_text(code, status_text(code), context@),
        (crate::text::decimal(code as nat) + " "@).is_prefix_of(status_text(code)),
{
    let shown = show_status(code);
    describe_failure(code, shown.as_str(), context)
}

/// Goes by the status of a reply: an error says what went wrong.
pub fn check_response(code: u16, context: &str) -> (checked: Result<(), String>)
    requires
        100 <= code <= 999,
    ensures
        200 <= code < 300 ==> checked is Ok,
        code < 200 || code >= 300 ==> checked is Err,
        checked is Ok <==> is_success(code),
        checked matches Err(text) ==> text@ == failure_text(code, status_text(code), context@),
{
    if 200 <= code && code < 300 {
        Ok(())
    } else {
        Err(handle_api_error(code, context))
    }
}

/// Where the users are listed.
pub fn users_url(base_url: &str) -> (url: String)
    ensures
        url@ == base_url@ + "/Users"@,
{
    let mut url = base_url.to_owned();
    url.append("/Users");
    url
}

/// Where all items are listed.
pub fn items_url(base_url: &str) -> (url: String)
    ensures
        url@ == base_url@
            + "/Items?Recursive=true&Fields=Path,UserData,MediaSources,Size,ParentId,SeasonName,IndexNumber,ParentIndexNumber"@,
{
    let mut url = base_url.to_owned();
    url.append(
        "/Items?Recursive=true&Fields=Path,UserData,MediaSources,Size,ParentId,SeasonName,IndexNumber,ParentIndexNumber",
    );
    url
}

/// Where an item is deleted.
pub fn item_url(base_url: &str, item_id: &str) -> (url: String)
    ensures
        url@ == base_url@ + "/Items/"@ + item_id@,
{
    let mut url = base_url.to_owned();
    url.append("/Items/");
    url.append(item_id);
    url
}

/// What is tried when an item is deleted.
pub fn deletion_context(item_id: &str) -> (context: String)
    ensures
        context@ == "Failed to delete item "@ + item_id@,
{
    let mut context = String::new();
    context.append("Failed to delete item ");
    context.append(item_id);
    assert(context@ =~= "Failed to delete item "@ + item_id@);
    context
}

} // verus!
