//! Reading statuses of tracked manga: their numeric codes, their names, and the parsing of
//! names typed by a user.

use crate::text::{ascii_lower, lowercase, to_lowercase};
use vstd::prelude::*;
use vstd::string::*;
use vstd::utf8::is_ascii_chars;

verus! {

/// Where a user stands with a manga.
#[derive(Clone, Copy, Debug, PartialEq, Eq, Structural)]
pub enum ReadingStatus {
    Unspecified,
    Planning,
    Reading,
    Completed,
    OnHold,
    Dropped,
    NotInterested,
}

/// The number that stands for `s` on the wire.
pub open spec fn status_code(s: ReadingStatus) -> i32 {
    match s {
        ReadingStatus::Unspecified => 0,
        ReadingStatus::Planning => 1,
        ReadingStatus::Reading => 2,
        ReadingStatus::Completed => 3,
        ReadingStatus::OnHold => 4,
        ReadingStatus::Dropped => 5,
        ReadingStatus::NotInterested => 6,
    }
}

/// The status that `code` stands for, if any.
pub open spec fn status_from_code(code: i32) -> Option<ReadingStatus> {
    if code == 0 {
        Some(ReadingStatus::Unspecified)
    } else if code == 1 {
        Some(ReadingStatus::Planning)
    } else if code == 2 {
        Some(ReadingStatus::Reading)
    } else if code == 3 {
        Some(ReadingStatus::Completed)
    } else if code == 4 {
        Some(ReadingStatus::OnHold)
    } else if code == 5 {
        Some(ReadingStatus::Dropped)
    } else if code == 6 {
        Some(ReadingStatus::NotInterested)
    } else {
        None
    }
}

impl ReadingStatus {
    /// The number that stands for the status on the wire.
    pub fn code(self) -> (r: i32)
        ensures
            r == status_code(self),
    {
        match self {
            ReadingStatus::Unspecified => 0,
            ReadingStatus::Planning => 1,
            ReadingStatus::Reading => 2,
            ReadingStatus::Completed => 3,
            ReadingStatus::OnHold => 4,
            ReadingStatus::Dropped => 5,
            ReadingStatus::NotInterested => 6,
        }
    }

    /// The status that `code` stands for, if any.
    pub fn from_code(code: i32) -> (r: Option<ReadingStatus>)
        ensures
            r == status_from_code(code),
    {
        if code == 0 {
            Some(ReadingStatus::Unspecified)
        } else if code == 1 {
            Some(ReadingStatus::Planning)
        } else if code == 2 {
            Some(ReadingStatus::Reading)
        } else if code == 3 {
            Some(ReadingStatus::Completed)
        } else if code == 4 {
            Some(ReadingStatus::OnHold)
        } else if code == 5 {
            Some(ReadingStatus::Dropped)
        } else if code == 6 {
            Some(ReadingStatus::NotInterested)
        } else {
            None
        }
    }
}

/// The status that a lowercase name stands for: the six names, with `onhold` and
/// `notinterested` as aliases.
pub open spec fn status_by_name(l: Seq<char>) -> Option<ReadingStatus> {
    if l == "planning"@ {
        Some(ReadingStatus::Planning)
    } else if l == "reading"@ {
        Some(ReadingStatus::Reading)
    } else if l == "completed"@ {
        Some(ReadingStatus::Completed)
    } else if l == "on_hold"@ || l == "onhold"@ {
        Some(ReadingStatus::OnHold)
    } else if l == "dropped"@ {
        Some(ReadingStatus::Dropped)
    } else if l == "not_interested"@ || l == "notinterested"@ {
        Some(ReadingStatus::NotInterested)
    } else {
        None
    }
}

/// The status that `s` names, whatever its case.
pub open spec fn parse_status_spec(s: Seq<char>) -> Option<ReadingStatus> {
    status_by_name(lowercase(s))
}

/// `s` with its ASCII capitals replaced by small letters.
pub open spec fn ascii_lowercase(s: Seq<char>) -> Seq<char> {
    s.map_values(|c: char| ascii_lower(c))
}

/// A name that no status goes by.
#[derive(Debug)]
pub struct InvalidStatus {
    pub input: String,
}

impl InvalidStatus {
    /// The text that describes the error.
    pub open spec fn text(self) -> Seq<char> {
        "Invalid status: "@ + self.input@
            + ". Use: planning, reading, completed, on_hold, dropped, not_interested"@
    }

    /// The text that describes the error.
    pub fn message(&self) -> (r: String)
        ensures
            r@ == self.text(),
    {
        let mut s = String::from_str("Invalid status: ");
        s.append(self.input.as_str());
        s.append(". Use: planning, reading, completed, on_hold, dropped, not_interested");
        s
    }
}

/// The status of a result of `parse_status`, if it succeeded.
pub open spec fn parsed_status(r: Result<ReadingStatus, InvalidStatus>) -> Option<ReadingStatus> {
    match r {
        Ok(st) => Some(st),
        Err(_) => None,
    }
}

/// The status that `s` names, whatever its case; an error that keeps `s` otherwise.
pub fn parse_status(s: &str) -> (r: Result<ReadingStatus, InvalidStatus>)
    ensures
        parsed_status(r) == parse_status_spec(s@),
        r matches Err(e) ==> e.input@ == s@,
        is_ascii_chars(s@) ==> parsed_status(r) == status_by_name(ascii_lowercase(s@)),
{
    let l = to_lowercase(s);
    proof {
        if is_ascii_chars(s@) {
            assert(l@ =~= ascii_lowercase(s@));
        }
    }
    if l == String::from_str("planning") {
        Ok(ReadingStatus::Planning)
    } else if l == String::from_str("reading") {
        Ok(ReadingStatus::Reading)
    } else if l == String::from_str("completed") {
        Ok(ReadingStatus::Completed)
    } else if l == String::from_str("on_hold") || l == String::from_str("onhold") {
        Ok(ReadingStatus::OnHold)
    } else if l == String::from_str("dropped") {
        Ok(ReadingStatus::Dropped)
    } else if l == String::from_str("not_interested") || l == String::from_str("notinterested") {
        Ok(ReadingStatus::NotInterested)
    } else {
        Err(InvalidStatus { input: String::from_str(s) })
    }
}

/// The name that `format_status` gives a status code.
pub open spec fn status_name(code: i32) -> Seq<char> {
    match status_from_code(code) {
        Some(ReadingStatus::Planning) => "planning"@,
        Some(ReadingStatus::Reading) => "reading"@,
        Some(ReadingStatus::Completed) => "completed"@,
        Some(ReadingStatus::OnHold) => "on_hold"@,
        Some(ReadingStatus::Dropped) => "dropped"@,
        Some(ReadingStatus::NotInterested) => "not_interested"@,
        _ => "unknown"@,
    }
}

/// The name of a status code; `unknown` for codes that name no status, and for the
/// unspecified one.
pub fn format_status(s: i32) -> (r: &'static str)
    ensures
        r@ == status_name(s),
{
    match ReadingStatus::from_code(s) {
        Some(ReadingStatus::Planning) => "planning",
        Some(ReadingStatus::Reading) => "reading",
        Some(ReadingStatus::Completed) => "completed",
        Some(ReadingStatus::OnHold) => "on_hold",
        Some(ReadingStatus::Dropped) => "dropped",
        Some(ReadingStatus::NotInterested) => "not_interested",
        _ => "unknown",
    }
}


/// Each status's code stands for that status, and a code that stands for a status is
/// that status's code.
pub proof fn lemma_status_code_roundtrip(st: ReadingStatus, code: i32)
    ensures
        status_from_code(status_code(st)) == Some(st),
        status_from_code(code) matches Some(s) ==> status_code(s) == code,
{
}

/// The name that `format_status` gives a status (other than the unspecified one) is
/// plain ASCII, and parsing it gives the status back.
pub proof fn lemma_format_then_parse(st: ReadingStatus)
    requires
        st != ReadingStatus::Unspecified,
    ensures
        is_ascii_chars(status_name(status_code(st))),
        status_by_name(ascii_lowercase(status_name(status_code(st)))) == Some(st),
{
    reveal_strlit("planning");
    reveal_strlit("reading");
    reveal_strlit("completed");
    reveal_strlit("on_hold");
    reveal_strlit("onhold");
    reveal_strlit("dropped");
    reveal_strlit("not_interested");
    reveal_strlit("notinterested");
    let name = status_name(status_code(st));
    assert(ascii_lowercase(name) =~= name);
    assert("planning"@[0] == 'p' && "reading"@[0] == 'r' && "completed"@[0] == 'c'
        && "on_hold"@[0] == 'o' && "onhold"@[0] == 'o' && "dropped"@[0] == 'd'
        && "not_interested"@[0] == 'n' && "notinterested"@[0] == 'n');
    assert("on_hold"@[2] == '_' && "onhold"@[2] == 'h');
    assert("not_interested"@[3] == '_' && "notinterested"@[3] == 'i');
}

/// Case does not matter: an ASCII name and its lowercase form name the same status.
pub proof fn lemma_parse_ignores_ascii_case(s: Seq<char>)
    requires
        is_ascii_chars(s),
    ensures
        is_ascii_chars(ascii_lowercase(s)),
        status_by_name(ascii_lowercase(ascii_lowercase(s))) == status_by_name(ascii_lowercase(s)),
{
    assert(ascii_lowercase(ascii_lowercase(s)) =~= ascii_lowercase(s));
}


/// The wire numbers are those of the protobuf enum `ReadingStatus`: unspecified 0,
/// planning 1, reading 2, completed 3, on hold 4, dropped 5, not interested 6, in both
/// directions; every other number stands for no status.
pub proof fn lemma_status_wire_numbers(n: i32)
    ensures
        status_code(ReadingStatus::Unspecified) == 0,
        status_code(ReadingStatus::Planning) == 1,
        status_code(ReadingStatus::Reading) == 2,
        status_code(ReadingStatus::Completed) == 3,
        status_code(ReadingStatus::OnHold) == 4,
        status_code(ReadingStatus::Dropped) == 5,
        status_code(ReadingStatus::NotInterested) == 6,
        status_from_code(0) == Some(ReadingStatus::Unspecified),
        status_from_code(1) == Some(ReadingStatus::Planning),
        status_from_code(2) == Some(ReadingStatus::Reading),
        status_from_code(3) == Some(ReadingStatus::Completed),
        status_from_code(4) == Some(ReadingStatus::OnHold),
        status_from_code(5) == Some(ReadingStatus::Dropped),
        status_from_code(6) == Some(ReadingStatus::NotInterested),
        (n < 0 || n > 6) ==> status_from_code(n) is None,
{
}

/// The name printed for a wire number is the protobuf enum's name for that number:
/// 1 planning, 2 reading, 3 completed, 4 on_hold, 5 dropped, 6 not_interested, and
/// `unknown` for 0 and for every number outside the enum.
pub proof fn lemma_status_names_of_wire_numbers(n: i32)
    ensures
        status_name(1) == "planning"@,
        status_name(2) == "reading"@,
        status_name(3) == "completed"@,
        status_name(4) == "on_hold"@,
        status_name(5) == "dropped"@,
        status_name(6) == "not_interested"@,
        (n < 1 || n > 6) ==> status_name(n) == "unknown"@,
{
}

/// A name typed in any ASCII case is sent as the protobuf number of the status it names:
/// planning 1, reading 2, completed 3, on_hold and onhold 4, dropped 5, not_interested and
/// notinterested 6.
pub proof fn lemma_typed_names_to_wire_numbers(s: Seq<char>)
    requires
        is_ascii_chars(s),
    ensures
        ascii_lowercase(s) == "planning"@ ==> status_code(status_by_name(ascii_lowercase(s))->0)
            == 1,
        ascii_lowercase(s) == "reading"@ ==> status_code(status_by_name(ascii_lowercase(s))->0)
            == 2,
        ascii_lowercase(s) == "completed"@ ==> status_code(status_by_name(ascii_lowercase(s))->0)
            == 3,
        (ascii_lowercase(s) == "on_hold"@ || ascii_lowercase(s) == "onhold"@) ==> status_code(
            status_by_name(ascii_lowercase(s))->0,
        ) == 4,
        ascii_lowercase(s) == "dropped"@ ==> status_code(status_by_name(ascii_lowercase(s))->0)
            == 5,
        (ascii_lowercase(s) == "not_interested"@ || ascii_lowercase(s) == "notinterested"@)
            ==> status_code(status_by_name(ascii_lowercase(s))->0) == 6,
        status_by_name(ascii_lowercase(s)) is Some ==> 1 <= status_code(
            status_by_name(ascii_lowercase(s))->0,
        ) <= 6,
{
    reveal_strlit("planning");
    reveal_strlit("reading");
    reveal_strlit("completed");
    reveal_strlit("on_hold");
    reveal_strlit("onhold");
    reveal_strlit("dropped");
    reveal_strlit("not_interested");
    reveal_strlit("notinterested");
    assert("planning"@[0] == 'p' && "reading"@[0] == 'r' && "completed"@[0] == 'c'
        && "on_hold"@[0] == 'o' && "onhold"@[0] == 'o' && "dropped"@[0] == 'd'
        && "not_interested"@[0] == 'n' && "notinterested"@[0] == 'n');
}

} // verus!
