//! The credential record and its identity rule.

use vstd::prelude::*;
use crate::text::lowercase;

verus! {

/// The value of a credential: the network's name and, where the network has
/// one, its pre-shared key.
pub struct Credential {
    pub ssid: Seq<char>,
    pub pass: Option<Seq<char>>,
}

/// One stored Wi-Fi network.
#[derive(Debug)]
pub struct WifiCred {
    pub ssid: String,
    pub pass: Option<String>,
}

impl View for WifiCred {
    type V = Credential;

    open spec fn view(&self) -> Credential {
        Credential {
            ssid: self.ssid@,
            pass: match self.pass {
                Some(p) => Some(p@),
                None => None,
            },
        }
    }
}

impl DeepView for WifiCred {
    type V = Credential;

    open spec fn deep_view(&self) -> Credential {
        self@
    }
}

/// The key under which a network is identified: its name in lower case.
pub open spec fn network_key(c: Credential) -> Seq<char> {
    lowercase(c.ssid)
}

impl Clone for WifiCred {
    fn clone(&self) -> (r: WifiCred)
        ensures
            r@ == self@,
    {
        WifiCred {
            ssid: self.ssid.clone(),
            pass: match &self.pass {
                Some(p) => Some(p.clone()),
                None => None,
            },
        }
    }
}

/// Two records are equal if they have the same name and the same key, case
/// and all.
impl PartialEq for WifiCred {
    fn eq(&self, other: &WifiCred) -> (r: bool) {
        let same_pass = match &self.pass {
            Some(a) => match &other.pass {
                Some(b) => *a == *b,
                None => false,
            },
            None => other.pass.is_none(),
        };
        self.ssid == other.ssid && same_pass
    }
}

impl vstd::std_specs::cmp::PartialEqSpecImpl for WifiCred {
    open spec fn obeys_eq_spec() -> bool {
        true
    }

    open spec fn eq_spec(&self, other: &WifiCred) -> bool {
        self@ == other@
    }
}

impl Eq for WifiCred {

}

impl WifiCred {
    /// Tells whether the two records name the same network: their names are
    /// equal when case is ignored.
    pub fn same_network(&self, other: &WifiCred) -> (r: bool)
        ensures
            r == (network_key(self@) == network_key(other@)),
    {
        let a = self.ssid.as_str().to_lowercase();
        let b = other.ssid.as_str().to_lowercase();
        a == b
    }
}

} // verus!
