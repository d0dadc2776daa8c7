//! Where the tag keeps what: the page map of the memory and the assignment of
//! the configuration pages.

use vstd::prelude::*;

verus! {

/// The page that holds the capability container.
pub const CC_PAGE: u8 = 3;

/// The first byte of a capability container that announces NDEF content.
pub const CC_MAGIC: u8 = 0xE1;

/// The first page of the user-data area.
pub const FIRST_USER_PAGE: u8 = 4;

/// The last page of the user-data area.
pub const LAST_USER_PAGE: u8 = 129;

/// The first configuration page.
pub const FIRST_CONFIG_PAGE: u8 = 130;

/// The last page of the tag.
pub const LAST_PAGE: u8 = 134;

/// The number of bytes in the user-data area: 126 pages of four bytes.
pub const USER_BYTES: usize = 504;

/// Which configuration page holds which setting. Tag revisions disagree on
/// this, so the assignment is a value chosen by the caller and not a constant
/// of the protocol: [`ConfigLayout::new`] takes any assignment of five
/// different configuration pages.
#[derive(Clone, Copy, Debug, PartialEq, Eq, Structural)]
pub struct ConfigLayout {
    /// The page of the four password bytes.
    pub pwd: u8,
    /// The page whose first two bytes are the password acknowledge.
    pub pack: u8,
    /// The page whose first byte is the first protected page.
    pub auth0: u8,
    /// The page whose first byte carries the protection-enable bit.
    pub access: u8,
    /// The page whose first two bytes lock the tag for good once both are `FF`.
    pub lock: u8,
}

impl ConfigLayout {
    /// Five different pages, all of them configuration pages.
    pub open spec fn wf(&self) -> bool {
        &&& FIRST_CONFIG_PAGE <= self.pwd <= LAST_PAGE
        &&& FIRST_CONFIG_PAGE <= self.pack <= LAST_PAGE
        &&& FIRST_CONFIG_PAGE <= self.auth0 <= LAST_PAGE
        &&& FIRST_CONFIG_PAGE <= self.access <= LAST_PAGE
        &&& FIRST_CONFIG_PAGE <= self.lock <= LAST_PAGE
        &&& self.pwd != self.pack && self.pwd != self.auth0 && self.pwd != self.access
        &&& self.pwd != self.lock && self.pack != self.auth0 && self.pack != self.access
        &&& self.pack != self.lock && self.auth0 != self.access && self.auth0 != self.lock
        &&& self.access != self.lock
    }

    /// The assignment with the given pages, if they are five different
    /// configuration pages.
    pub fn new(pwd: u8, pack: u8, auth0: u8, access: u8, lock: u8) -> (r: Option<ConfigLayout>)
        ensures
            r == (if (ConfigLayout { pwd, pack, auth0, access, lock }).wf() {
                Some(ConfigLayout { pwd, pack, auth0, access, lock })
            } else {
                None
            }),
    {
        let in_range = FIRST_CONFIG_PAGE <= pwd && pwd <= LAST_PAGE && FIRST_CONFIG_PAGE <= pack
            && pack <= LAST_PAGE && FIRST_CONFIG_PAGE <= auth0 && auth0 <= LAST_PAGE
            && FIRST_CONFIG_PAGE <= access && access <= LAST_PAGE && FIRST_CONFIG_PAGE <= lock
            && lock <= LAST_PAGE;
        let distinct = pwd != pack && pwd != auth0 && pwd != access && pwd != lock && pack != auth0
            && pack != access && pack != lock && auth0 != access && auth0 != lock && access
            != lock;
        if in_range && distinct {
            Some(ConfigLayout { pwd, pack, auth0, access, lock })
        } else {
            None
        }
    }

    /// Password at 130, acknowledge at 131, threshold at 132, access at 133,
    /// lock at 134.
    pub fn from_page_130() -> (r: ConfigLayout)
        ensures
            r.wf(),
            r == (ConfigLayout { pwd: 130, pack: 131, auth0: 132, access: 133, lock: 134 }),
    {
        ConfigLayout { pwd: 130, pack: 131, auth0: 132, access: 133, lock: 134 }
    }
}

} // verus!
