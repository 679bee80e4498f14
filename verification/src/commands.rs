use vstd::prelude::*;
use crate::app::App;
use crate::storage::{entry_file_name, name_of_date};

verus! {

/// An ASCII decimal digit.
pub open spec fn is_digit_char(c: char) -> bool {
    '0' <= c && c <= '9'
}

/// The shape of a formatted date stamp: a two-digit month and a
/// two-digit day behind fixed hyphens, and before them the year's
/// digits, at least four of them, the first place possibly a sign.
pub open spec fn date_stamp_shaped(s: Seq<char>) -> bool {
    &&& s.len() >= 10
    &&& s[s.len() - 6] == '-'
    &&& s[s.len() - 3] == '-'
    &&& is_digit_char(s[s.len() - 5])
    &&& is_digit_char(s[s.len() - 4])
    &&& is_digit_char(s[s.len() - 2])
    &&& is_digit_char(s[s.len() - 1])
    &&& (is_digit_char(s[0]) || s[0] == '-' || s[0] == '+')
    &&& forall|i: int| 1 <= i < s.len() - 6 ==> is_digit_char(#[trigger] s[i])
}

/// Relies on chrono's `Local::now`, formatted as `%Y-%m-%d`: the year
/// is zero-padded to at least four digits and carries a sign outside
/// the four-digit range; month and day take exactly two digits each.
#[verifier::external_body]
fn today_date_string() -> (r: String)
    ensures
        date_stamp_shaped(r@),
{
    chrono::Local::now().format("%Y-%m-%d").to_string()
}

/// Resolves the file name that today's entry lives in. The caller
/// writes the template when the file is missing, opens the editor on
/// it, then completes with `create_new_entry` and reloads.
pub fn new_entry_target() -> (r: String)
    ensures
        exists|d: Seq<char>| date_stamp_shaped(d) && r@ == name_of_date(d),
{
    let date: String = today_date_string();
    let r = entry_file_name(date.as_str());
    proof {
        assert(r@ == name_of_date(date@));
    }
    r
}

/// Completes the creation of today's entry once the editor has
/// returned: records the creation status message. The target was
/// resolved by `new_entry_target`; the caller reloads afterwards.
pub fn create_new_entry(app: &mut App, now_ms: u64)
    ensures
        final(app).status_message@ == "Created new entry for today"@,
        final(app).status_time == Some(now_ms),
        final(app).tab_index == old(app).tab_index,
        final(app).entries_list == old(app).entries_list,
        final(app).input_mode == old(app).input_mode,
        final(app).show_help == old(app).show_help,
        final(app).editor == old(app).editor,
{
    app.set_status("Created new entry for today", now_ms);
}

/// Resolves the file name that the entry of `date` lives in. The
/// caller writes the template when the file is missing, opens the
/// editor on it, and reloads; opening sets no status message.
pub fn open_entry(date: &str) -> (r: String)
    ensures
        r@ == name_of_date(date@),
{
    entry_file_name(date)
}

/// Applies the outcome of deleting the entry of `date`: when its file
/// existed and was removed, records the deletion status message;
/// deleting an absent entry is a silent no-op that changes nothing.
pub fn delete_entry(app: &mut App, date: &str, existed: bool, now_ms: u64)
    ensures
        existed ==> final(app).status_message@ == "Deleted entry for "@ + date@,
        existed ==> final(app).status_time == Some(now_ms),
        !existed ==> *final(app) == *old(app),
        final(app).tab_index == old(app).tab_index,
        final(app).entries_list == old(app).entries_list,
        final(app).input_mode == old(app).input_mode,
        final(app).show_help == old(app).show_help,
        final(app).editor == old(app).editor,
{
    if existed {
        let mut message: String = "Deleted entry for ".to_owned();
        message.append(date);
        app.set_status(message.as_str(), now_ms);
    }
}

/// The template written into a fresh entry file before the editor
/// first opens it: a title line carrying the entry's date.
pub fn entry_template(date: &str) -> (r: String)
    ensures
        r@ == "# Journal Entry: "@ + date@ + "\n\n"@,
{
    let mut r: String = "# Journal Entry: ".to_owned();
    r.append(date);
    r.append("\n\n");
    r
}

/// The confirmation gate of the CLI deletion flow: a line of input is
/// accepted exactly when it begins with 'y' or 'Y'.
pub fn confirmation_accepts(input: &str) -> (r: bool)
    ensures
        r == (input@.len() > 0 && (input@[0] == 'y' || input@[0] == 'Y')),
{
    if input.unicode_len() == 0 {
        return false;
    }
    let c: char = input.get_char(0);
    c == 'y' || c == 'Y'
}

} // verus!
