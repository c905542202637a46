//! The working list of a session: the one credential list that the actions
//! of a session read and replace, always in merged form; and the name of the
//! file to which the list is exported.

use vstd::prelude::*;
use vstd::string::StringExecFns;
use crate::cred::{Credential, WifiCred};
use crate::import::{imported, parse_imported_json};
use crate::json::{build_json, json_text};
use crate::reconcile::{merge, merged, normalize, working};
use crate::error::ErrorKind;

verus! {

/// The state of a session.
#[derive(Debug)]
pub struct Session {
    /// The working list.
    pub list: Vec<WifiCred>,
}

impl Session {
    /// The working list is in merged form.
    pub open spec fn wf(&self) -> bool {
        working(self.list.deep_view())
    }

    /// A session with an empty working list.
    pub fn new() -> (s: Session)
        ensures
            s.list@.len() == 0,
            s.wf(),
    {
        let s = Session { list: Vec::new() };
        s
    }

    /// Replaces the working list by the merged form of `found`, the list
    /// that a read of the device gave.
    pub fn load(&mut self, found: &[WifiCred])
        ensures
            final(self).list.deep_view() == merged(Seq::empty(), found.deep_view()),
            final(self).wf(),
    {
        self.list = normalize(found);
    }

    /// Takes in the credential list of imported JSON text: the working list
    /// becomes the merge of the imported list with itself, in which its own
    /// records count before the imported ones. Text that is refused leaves
    /// the working list as it is.
    pub fn import_json(&mut self, text: &str) -> (r: Result<(), ErrorKind>)
        ensures
            match r {
                Ok(_) => imported(text@) is Some && final(self).list.deep_view() == merged(
                    imported(text@)->0,
                    old(self).list.deep_view(),
                ) && final(self).wf(),
                Err(e) => e == ErrorKind::InvalidFormat && imported(text@) is None
                    && final(self).list == old(self).list,
            },
    {
        match parse_imported_json(text) {
            Ok(list) => {
                let next = merge(list.as_slice(), self.list.as_slice());
                self.list = next;
                Ok(())
            },
            Err(e) => Err(e),
        }
    }

    /// Renders the working list as JSON text.
    pub fn to_json(&self) -> (s: String)
        ensures
            s@ == json_text(self.list.deep_view()),
    {
        build_json(self.list.as_slice())
    }
}

/// The decimal digit of `d`.
pub open spec fn digit_char(d: int) -> char {
    (0x30 + d) as char
}

/// The decimal numeral of `n`.
pub open spec fn decimal(n: nat) -> Seq<char>
    decreases n,
{
    if n < 10 {
        seq![digit_char(n as int)]
    } else {
        decimal(n / 10).push(digit_char((n % 10) as int))
    }
}

/// The name of the file to which a list is exported at the time
/// `unix_seconds`.
pub open spec fn file_name(unix_seconds: nat) -> Seq<char> {
    "wifi_passwords_"@ + decimal(unix_seconds) + ".json"@
}

/// Gives the decimal digit of `d`.
fn digit(d: u8) -> (c: char)
    requires
        d < 10,
    ensures
        c == digit_char(d as int),
{
    (0x30 + d) as char
}

/// Writes the decimal numeral of `n`.
pub fn to_decimal(n: u64) -> (v: Vec<char>)
    ensures
        v@ == decimal(n as nat),
{
    let mut digits: Vec<char> = Vec::new();
    let mut rest: u64 = n;
    while rest >= 10
        invariant
            decimal(n as nat) == decimal(rest as nat) + digits@.reverse(),
        decreases rest,
    {
        let d = digit((rest % 10) as u8);
        assert(decimal((rest / 10) as nat).push(d) + digits@.reverse() =~= decimal(
            (rest / 10) as nat,
        ) + (seq![d] + digits@.reverse()));
        digits.push(d);
        rest = rest / 10;
    }
    let mut v: Vec<char> = Vec::new();
    v.push(digit(rest as u8));
    let mut i: usize = digits.len();
    while i > 0
        invariant
            i <= digits@.len(),
            v@ == decimal(rest as nat) + digits@.reverse().take(digits@.len() - i),
            decimal(n as nat) == decimal(rest as nat) + digits@.reverse(),
        decreases i,
    {
        i -= 1;
        v.push(digits[i]);
    }
    v
}

/// Names the file to which a list is exported at the time `unix_seconds`.
pub fn export_file_name(unix_seconds: u64) -> (name: String)
    ensures
        name@ == file_name(unix_seconds as nat),
{
    let mut name = String::from_str("wifi_passwords_");
    let digits = to_decimal(unix_seconds);
    name.append(crate::text::string_of(digits.as_slice()).as_str());
    name.append(".json");
    name
}

} // verus!
