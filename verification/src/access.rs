//! Access control: the configuration pages, the protection state derived from
//! them, and the authentication handshake.

use vstd::prelude::*;
use crate::command::{
    auth_apdu, auth_command, auth_method, read_command, write_command, AuthMethod, AUTH_METHODS,
};
use crate::error::{AuthFailure, TagError, TransportError};
use crate::layout::{ConfigLayout, CC_MAGIC, CC_PAGE};
use crate::pages::{
    lemma_extends_grew, lemma_grew_twice, page_of, page_list, page_view, read_trace, reads_result,
    reads_run, write_outcome, writes_result, writes_run, Ntag216,
};
use crate::transport::{appended, extends, reply, Exchange, LibnfcCardWrapper, NfcCard, SW1_DENIED};

verus! {

/// The bit of the access byte that switches password protection on.
pub const PROTECT_BIT: u8 = 0x80;

/// The bit of the second access byte that marks the tag read-only.
pub const READ_ONLY_BIT: u8 = 0x01;

/// The value of each of the two lock bytes once the tag is locked.
pub const LOCK_SENTINEL: u8 = 0xFF;

/// What the configuration pages say, read in one go.
#[derive(Clone, Copy, Debug)]
pub struct NtagConfig {
    pub password: [u8; 4],
    pub pack: [u8; 2],
    pub access: [u8; 2],
    pub auth_limit: u8,
    pub password_protected: bool,
    pub read_only: bool,
    pub locked: bool,
}

/// The entry of the authentication table at position `k`.
pub fn method_at(k: usize) -> (m: AuthMethod)
    ensures
        m == auth_method(k as int),
{
    if k == 0 {
        AuthMethod::Wrapped
    } else if k == 1 {
        AuthMethod::PassThrough
    } else {
        AuthMethod::Short
    }
}

/// The acknowledge bytes in the payload of a successful authentication, if
/// the reader relayed them.
pub open spec fn pack_of(payload: Seq<u8>) -> Option<Seq<u8>> {
    if payload.len() >= 2 {
        Some(payload.take(2))
    } else {
        None
    }
}

/// The mathematical content of an authentication result.
pub open spec fn pack_view(r: Result<Option<[u8; 2]>, TagError>) -> Result<Option<Seq<u8>>, TagError> {
    match r {
        Ok(Some(p)) => Ok(Some(p@)),
        Ok(None) => Ok(None),
        Err(e) => Err(e),
    }
}

/// How many encodings an authentication that left `trace` went through: it
/// stops at the first that the tag accepts and never tries more than three.
pub open spec fn auth_attempts(trace: Seq<Exchange>) -> int {
    if trace.len() >= 2 && reply(trace[1]) is Ok {
        1
    } else if trace.len() >= 3 && reply(trace[2]) is Ok {
        2
    } else {
        3
    }
}

/// How many exchanges an authentication takes from the front of `trace`: the
/// look at the password page and the attempts.
pub open spec fn auth_len(trace: Seq<Exchange>) -> int {
    1 + auth_attempts(trace)
}

/// Why an authentication failed, judged by what the password page showed
/// before the first attempt.
pub open spec fn auth_hint(first: Exchange) -> AuthFailure {
    if page_of(reply(first)) == Ok::<Seq<u8>, TagError>(seq![0u8, 0u8, 0u8, 0u8]) {
        AuthFailure::NoPasswordSet
    } else {
        AuthFailure::Rejected
    }
}

/// The outcome of the authentication that left `trace`.
pub open spec fn auth_result(trace: Seq<Exchange>) -> Result<Option<Seq<u8>>, TagError> {
    match reply(trace[auth_attempts(trace)]) {
        Ok(payload) => Ok(pack_of(payload)),
        Err(_) => Err(TagError::AuthFailed(auth_hint(trace[0]))),
    }
}

/// `trace` is a complete authentication with `password`: one read of the
/// password page, then the encodings of the table in order, up to and
/// including the first that succeeds.
pub open spec fn auth_run(pwd_page: u8, password: Seq<u8>, trace: Seq<Exchange>) -> bool {
    let n = auth_attempts(trace);
    &&& trace.len() == n + 1
    &&& trace[0].command == read_command(pwd_page)
    &&& trace[1].command == auth_command(auth_method(0), password)
    &&& n >= 2 ==> trace[2].command == auth_command(auth_method(1), password)
    &&& n >= 3 ==> trace[3].command == auth_command(auth_method(2), password)
}

/// `trace` is a complete authentication with `password` and `result` is its
/// outcome.
pub open spec fn auth_trace(
    pwd_page: u8,
    password: Seq<u8>,
    trace: Seq<Exchange>,
    result: Result<Option<Seq<u8>>, TagError>,
) -> bool {
    auth_run(pwd_page, password, trace) && result == auth_result(trace)
}

/// `trace` begins with a complete authentication with `password`.
pub open spec fn auth_first(pwd_page: u8, password: Seq<u8>, trace: Seq<Exchange>) -> bool {
    auth_len(trace) <= trace.len() && auth_run(pwd_page, password, trace.take(auth_len(trace)))
}

/// The outcome of the authentication that `trace` begins with.
pub open spec fn auth_first_result(trace: Seq<Exchange>) -> Result<Option<Seq<u8>>, TagError> {
    auth_result(trace.take(auth_len(trace)))
}

/// What follows the authentication that `trace` begins with.
pub open spec fn after_auth(trace: Seq<Exchange>) -> Seq<Exchange> {
    trace.skip(auth_len(trace))
}

/// `trace` is an authentication with `password` followed, if it succeeded, by
/// a read of `page`; `result` is the failure of the first or the outcome of
/// the second.
pub open spec fn auth_read_trace(
    pwd_page: u8,
    password: Seq<u8>,
    page: u8,
    trace: Seq<Exchange>,
    result: Result<Seq<u8>, TagError>,
) -> bool {
    &&& auth_first(pwd_page, password, trace)
    &&& match auth_first_result(trace) {
        Err(e) => after_auth(trace).len() == 0 && result == Err::<Seq<u8>, TagError>(e),
        Ok(_) => read_trace(page, after_auth(trace), result),
    }
}

/// `trace` is a read of `page`, preceded by an authentication if a password
/// was given.
pub open spec fn read_with_password_trace(
    pwd_page: u8,
    page: u8,
    password: Option<Seq<u8>>,
    trace: Seq<Exchange>,
    result: Result<Seq<u8>, TagError>,
) -> bool {
    match password {
        None => read_trace(page, trace, result),
        Some(pwd) => auth_read_trace(pwd_page, pwd, page, trace, result),
    }
}

/// The mathematical content of an optional password.
pub open spec fn password_view(password: Option<&[u8; 4]>) -> Option<Seq<u8>> {
    match password {
        Some(p) => Some(p@),
        None => None,
    }
}

/// Whether a capability container announces NDEF content.
pub open spec fn has_magic(cc: Seq<u8>) -> bool {
    cc.len() > 0 && cc[0] == CC_MAGIC
}

/// What a read of the capability container says about the tag type.
pub open spec fn type_of(cc: Result<Seq<u8>, TagError>) -> Result<bool, TagError> {
    match cc {
        Ok(page) => Ok(has_magic(page)),
        Err(e) => Err(e),
    }
}

/// Whether a read failed because the tag's protection denied it.
pub open spec fn denied(r: Result<Seq<u8>, TagError>) -> bool {
    r matches Err(TagError::Read(TransportError::Status { sw1, sw2 })) && sw1 == SW1_DENIED
}

/// `trace` is a check of the tag type: one read of the capability container.
pub open spec fn check_trace(trace: Seq<Exchange>, result: Result<bool, TagError>) -> bool {
    &&& trace.len() == 1
    &&& trace[0].command == read_command(CC_PAGE)
    &&& result == type_of(page_of(reply(trace[0])))
}

/// `trace` is a check of the tag type that authenticates and reads again
/// when the first read is denied and a password is at hand.
pub open spec fn check_with_password_trace(
    pwd_page: u8,
    password: Option<Seq<u8>>,
    trace: Seq<Exchange>,
    result: Result<bool, TagError>,
) -> bool {
    &&& trace.len() >= 1
    &&& trace[0].command == read_command(CC_PAGE)
    &&& if denied(page_of(reply(trace[0]))) {
        match password {
            None => trace.len() == 1 && result == Err::<bool, TagError>(TagError::PasswordRequired),
            Some(pwd) => {
                let rest = trace.skip(1);
                &&& auth_first(pwd_page, pwd, rest)
                &&& match auth_first_result(rest) {
                    Err(e) => after_auth(rest).len() == 0 && result == Err::<bool, TagError>(e),
                    Ok(_) => check_trace(after_auth(rest), result),
                }
            },
        }
    } else {
        trace.len() == 1 && result == type_of(page_of(reply(trace[0])))
    }
}

/// Whether an access page has the protection-enable bit set.
pub open spec fn protect_bit(access: Seq<u8>) -> bool {
    access.len() > 0 && access[0] & PROTECT_BIT != 0
}

/// `trace` is one read of the access page, and `result` tells whether the
/// protection-enable bit is set in it.
pub open spec fn protected_trace(
    access_page: u8,
    trace: Seq<Exchange>,
    result: Result<bool, TagError>,
) -> bool {
    &&& trace.len() == 1
    &&& trace[0].command == read_command(access_page)
    &&& result == match page_of(reply(trace[0])) {
        Ok(page) => Ok::<bool, TagError>(protect_bit(page)),
        Err(e) => Err(e),
    }
}

/// The configuration pages in the order in which they are read.
pub open spec fn config_pages(layout: ConfigLayout) -> Seq<u8> {
    seq![layout.pwd, layout.pack, layout.auth0, layout.access, layout.lock]
}

/// `config` is what the five configuration pages `data` say.
pub open spec fn config_matches(config: NtagConfig, data: Seq<Seq<u8>>) -> bool {
    &&& config.password@ == data[0]
    &&& config.pack@ == data[1].take(2)
    &&& config.auth_limit == data[2][0]
    &&& config.access@ == data[3].take(2)
    &&& config.password_protected == (data[3][0] & PROTECT_BIT != 0)
    &&& config.read_only == (data[3][1] & READ_ONLY_BIT != 0)
    &&& config.locked == (data[4][0] == LOCK_SENTINEL && data[4][1] == LOCK_SENTINEL)
}

/// `trace` reads the configuration pages, and `result` is what they say or
/// the first failure.
pub open spec fn config_trace(
    layout: ConfigLayout,
    trace: Seq<Exchange>,
    result: Result<NtagConfig, TagError>,
) -> bool {
    &&& reads_run(config_pages(layout), trace)
    &&& match reads_result(trace) {
        Ok(data) => trace.len() == 5 && result is Ok && config_matches(result->Ok_0, data),
        Err(e) => result == Err::<NtagConfig, TagError>(e),
    }
}

/// The pages that setting or clearing a password writes, in the order in
/// which they are written: password and acknowledge first, the
/// protection-enable bit last.
pub open spec fn password_pages(layout: ConfigLayout) -> Seq<u8> {
    seq![layout.pwd, layout.pack, layout.auth0, layout.access]
}

/// What setting a password writes to the pages of [`password_pages`].
pub open spec fn password_data(password: Seq<u8>, pack: Seq<u8>, auth_limit: u8) -> Seq<Seq<u8>> {
    seq![
        password,
        seq![pack[0], pack[1], 0u8, 0u8],
        seq![auth_limit, 0u8, 0u8, 0u8],
        seq![PROTECT_BIT, 0u8, 0u8, 0u8],
    ]
}

/// What clearing the password writes to the pages of [`password_pages`].
pub open spec fn cleared_data() -> Seq<Seq<u8>> {
    seq![
        seq![0u8, 0u8, 0u8, 0u8],
        seq![0u8, 0u8, 0u8, 0u8],
        seq![0u8, 0u8, 0u8, 0u8],
        seq![0u8, 0u8, 0u8, 0u8],
    ]
}

/// What a confirming read makes of a page: success if `holds` is true of it.
pub open spec fn confirmed(page: Result<Seq<u8>, TagError>, holds: spec_fn(Seq<u8>) -> bool) -> Result<
    (),
    TagError,
> {
    match page {
        Err(e) => Err(e),
        Ok(p) => if holds(p) {
            Ok(())
        } else {
            Err(TagError::NotConfirmed)
        },
    }
}

/// Whether a read of the lock page shows the tag as locked.
pub open spec fn shows_locked(lock: Result<Seq<u8>, TagError>) -> bool {
    lock is Ok && lock_set(lock->Ok_0)
}

/// `trace` sets a password. The lock page is read first, and a tag that it
/// shows as locked is refused with nothing written; a lock page that cannot
/// be read does not stop the call. Then follows what
/// [`configured_trace`] describes.
pub open spec fn set_password_trace(
    layout: ConfigLayout,
    password: Seq<u8>,
    pack: Seq<u8>,
    auth_limit: u8,
    trace: Seq<Exchange>,
    result: Result<(), TagError>,
) -> bool {
    &&& trace.len() >= 1
    &&& trace[0].command == read_command(layout.lock)
    &&& if shows_locked(page_of(reply(trace[0]))) {
        trace.len() == 1 && result == Err::<(), TagError>(TagError::Locked)
    } else {
        configured_trace(layout, password, pack, auth_limit, trace.skip(1), result)
    }
}

/// `trace` writes the configuration of a password: the four writes of
/// [`password_data`], stopped by the first that fails, and then a read of
/// the access page, which has to show the protection-enable bit.
pub open spec fn configured_trace(
    layout: ConfigLayout,
    password: Seq<u8>,
    pack: Seq<u8>,
    auth_limit: u8,
    trace: Seq<Exchange>,
    result: Result<(), TagError>,
) -> bool {
    let k = if trace.len() < 4 {
        trace.len() as int
    } else {
        4
    };
    &&& writes_run(
        password_pages(layout),
        password_data(password, pack, auth_limit),
        false,
        trace.take(k),
    )
    &&& match writes_result(false, trace.take(k)) {
        Err(e) => trace.len() == k && result == Err::<(), TagError>(e),
        Ok(_) => {
            &&& trace.len() == 5
            &&& trace[4].command == read_command(layout.access)
            &&& result == confirmed(page_of(reply(trace[4])), |p: Seq<u8>| protect_bit(p))
        },
    }
}

/// `trace` clears the password: the four writes of [`cleared_data`], stopped
/// by the first that fails.
pub open spec fn remove_password_trace(
    layout: ConfigLayout,
    trace: Seq<Exchange>,
    result: Result<(), TagError>,
) -> bool {
    &&& writes_run(password_pages(layout), cleared_data(), false, trace)
    &&& result == writes_result(false, trace)
}

/// Whether a lock page shows the tag as locked.
pub open spec fn lock_set(lock: Seq<u8>) -> bool {
    lock.len() > 1 && lock[0] == LOCK_SENTINEL && lock[1] == LOCK_SENTINEL
}

/// The access page `page` with the read-only bit set and nothing else
/// changed.
pub open spec fn with_read_only(page: Seq<u8>) -> Seq<u8> {
    seq![page[0], page[1] | READ_ONLY_BIT, page[2], page[3]]
}

/// `trace` makes the tag read-only: it reads the access page, writes it back
/// with the read-only bit set, writes the lock sentinel, and reads the lock
/// page, which has to show the sentinel. The first step that fails ends it.
pub open spec fn read_only_trace(
    layout: ConfigLayout,
    trace: Seq<Exchange>,
    result: Result<(), TagError>,
) -> bool {
    &&& trace.len() >= 1
    &&& trace[0].command == read_command(layout.access)
    &&& match page_of(reply(trace[0])) {
        Err(e) => trace.len() == 1 && result == Err::<(), TagError>(e),
        Ok(access) => {
            &&& trace.len() >= 2
            &&& trace[1].command == write_command(layout.access, with_read_only(access))
            &&& match write_outcome(reply(trace[1]), false) {
                Err(e) => trace.len() == 2 && result == Err::<(), TagError>(e),
                Ok(_) => {
                    &&& trace.len() >= 3
                    &&& trace[2].command == write_command(
                        layout.lock,
                        seq![LOCK_SENTINEL, LOCK_SENTINEL, 0u8, 0u8],
                    )
                    &&& match write_outcome(reply(trace[2]), false) {
                        Err(e) => trace.len() == 3 && result == Err::<(), TagError>(e),
                        Ok(_) => {
                            &&& trace.len() == 4
                            &&& trace[3].command == read_command(layout.lock)
                            &&& result == confirmed(
                                page_of(reply(trace[3])),
                                |p: Seq<u8>| lock_set(p),
                            )
                        },
                    }
                },
            }
        },
    }
}

impl Ntag216 {
    /// Presents `password` to the tag. The password page is read first, only
    /// to tell afterwards why a failure happened. Then the encodings of the
    /// authentication table are tried in order; the first that the tag
    /// accepts ends the handshake with the acknowledge bytes it returned.
    /// When none is accepted the result is [`TagError::AuthFailed`].
    pub fn authenticate_password<R: NfcCard>(
        &self,
        card: &mut LibnfcCardWrapper<R>,
        password: &[u8; 4],
    ) -> (r: Result<Option<[u8; 2]>, TagError>)
        ensures
            extends(old(card).log(), final(card).log()),
            auth_trace(
                self.layout.pwd,
                password@,
                appended(old(card).log(), final(card).log()),
                pack_view(r),
            ),
    {
        let ghost log0 = card.log();
        let stored = self.read_block(card, self.layout.pwd);
        let empty = match stored {
            Ok(page) => page[0] == 0 && page[1] == 0 && page[2] == 0 && page[3] == 0,
            Err(_) => false,
        };
        let ghost first = appended(log0, card.log())[0];
        proof {
            if page_view(stored) is Ok {
                assert(empty <==> page_view(stored)->Ok_0 =~= seq![0u8, 0u8, 0u8, 0u8]);
            }
            assert(empty <==> auth_hint(first) == AuthFailure::NoPasswordSet);
        }
        let mut k: usize = 0;
        while k < AUTH_METHODS
            invariant
                k <= 3,
                log0 == old(card).log(),
                empty <==> auth_hint(first) == AuthFailure::NoPasswordSet,
                extends(log0, card.log()),
                appended(log0, card.log()).len() == k + 1,
                appended(log0, card.log())[0] == first,
                first.command == read_command(self.layout.pwd),
                k >= 1 ==> appended(log0, card.log())[1].command == auth_command(
                    auth_method(0),
                    password@,
                ) && reply(appended(log0, card.log())[1]) is Err,
                k >= 2 ==> appended(log0, card.log())[2].command == auth_command(
                    auth_method(1),
                    password@,
                ) && reply(appended(log0, card.log())[2]) is Err,
                k >= 3 ==> appended(log0, card.log())[3].command == auth_command(
                    auth_method(2),
                    password@,
                ) && reply(appended(log0, card.log())[3]) is Err,
            decreases 3 - k,
        {
            let ghost mid = card.log();
            let apdu = auth_apdu(method_at(k), password);
            let answer = card.transmit(apdu.as_slice());
            proof {
                let e = card.log().last();
                assert(card.log() =~= mid + seq![e]);
                lemma_grew_twice(log0, mid, card.log(), seq![e]);
            }
            match answer {
                Ok(payload) => {
                    let pack = if payload.len() >= 2 {
                        let p = [payload[0], payload[1]];
                        assert(p@ =~= payload@.take(2));
                        Some(p)
                    } else {
                        None
                    };
                    proof {
                        let t = appended(log0, card.log());
                        assert(reply(t[1 + k as int]) is Ok);
                        assert(auth_attempts(t) == k + 1);
                    }
                    return Ok(pack);
                },
                Err(_) => {},
            }
            k = k + 1;
        }
        proof {
            let t = appended(log0, card.log());
            assert(auth_attempts(t) == 3);
        }
        if empty {
            Err(TagError::AuthFailed(AuthFailure::NoPasswordSet))
        } else {
            Err(TagError::AuthFailed(AuthFailure::Rejected))
        }
    }

    /// Reads page `block`, after authenticating with `password` if one is
    /// given. A failed authentication is the result, and nothing is read.
    pub fn read_block_with_password<R: NfcCard>(
        &self,
        card: &mut LibnfcCardWrapper<R>,
        block: u8,
        password: Option<&[u8; 4]>,
    ) -> (r: Result<[u8; 4], TagError>)
        ensures
            extends(old(card).log(), final(card).log()),
            read_with_password_trace(
                self.layout.pwd,
                block,
                password_view(password),
                appended(old(card).log(), final(card).log()),
                page_view(r),
            ),
    {
        let ghost log0 = card.log();
        if let Some(pwd) = password {
            match self.authenticate_password(card, pwd) {
                Err(e) => {
                    proof {
                        lemma_auth_alone(appended(log0, card.log()));
                    }
                    return Err(e);
                },
                Ok(_) => {},
            }
            let ghost mid = card.log();
            let r = self.read_block(card, block);
            proof {
                let t = appended(mid, card.log());
                lemma_extends_grew(mid, card.log());
                lemma_grew_twice(log0, mid, card.log(), t);
                lemma_auth_then(appended(log0, mid), t);
            }
            r
        } else {
            self.read_block(card, block)
        }
    }

    /// Tells whether the capability container announces NDEF content, which
    /// is how a tag of this family is recognised.
    pub fn check_type<R: NfcCard>(&self, card: &mut LibnfcCardWrapper<R>) -> (r: Result<
        bool,
        TagError,
    >)
        ensures
            extends(old(card).log(), final(card).log()),
            check_trace(appended(old(card).log(), final(card).log()), r),
    {
        match self.read_block(card, CC_PAGE) {
            Ok(cc) => Ok(cc[0] == CC_MAGIC),
            Err(e) => Err(e),
        }
    }

    /// Like [`Ntag216::check_type`], but when the tag denies the read it
    /// authenticates with `password` and reads again. Without a password a
    /// denied read is [`TagError::PasswordRequired`].
    pub fn check_type_with_password<R: NfcCard>(
        &self,
        card: &mut LibnfcCardWrapper<R>,
        password: Option<&[u8; 4]>,
    ) -> (r: Result<bool, TagError>)
        ensures
            extends(old(card).log(), final(card).log()),
            check_with_password_trace(
                self.layout.pwd,
                password_view(password),
                appended(old(card).log(), final(card).log()),
                r,
            ),
    {
        let ghost log0 = card.log();
        match self.read_block(card, CC_PAGE) {
            Ok(cc) => Ok(cc[0] == CC_MAGIC),
            Err(TagError::Read(TransportError::Status { sw1, sw2 })) => {
                if sw1 != SW1_DENIED {
                    return Err(TagError::Read(TransportError::Status { sw1, sw2 }));
                }
                let ghost mid = card.log();
                match password {
                    None => Err(TagError::PasswordRequired),
                    Some(pwd) => {
                        let again = self.read_block_with_password(card, CC_PAGE, Some(pwd));
                        proof {
                            let t = appended(mid, card.log());
                            lemma_extends_grew(mid, card.log());
                            lemma_grew_twice(log0, mid, card.log(), t);
                            assert(appended(log0, card.log()).skip(1) =~= t);
                        }
                        match again {
                            Ok(cc) => Ok(cc[0] == CC_MAGIC),
                            Err(e) => Err(e),
                        }
                    },
                }
            },
            Err(e) => Err(e),
        }
    }

    /// Tells whether password protection is switched on, by reading the
    /// access page afresh.
    pub fn is_password_protected<R: NfcCard>(&self, card: &mut LibnfcCardWrapper<R>) -> (r: Result<
        bool,
        TagError,
    >)
        ensures
            extends(old(card).log(), final(card).log()),
            protected_trace(self.layout.access, appended(old(card).log(), final(card).log()), r),
    {
        match self.read_block(card, self.layout.access) {
            Ok(page) => Ok(page[0] & PROTECT_BIT != 0),
            Err(e) => Err(e),
        }
    }

    /// Reads the five configuration pages and derives the protection state
    /// from them.
    pub fn read_config<R: NfcCard>(&self, card: &mut LibnfcCardWrapper<R>) -> (r: Result<
        NtagConfig,
        TagError,
    >)
        ensures
            extends(old(card).log(), final(card).log()),
            config_trace(self.layout, appended(old(card).log(), final(card).log()), r),
    {
        let pages = vec![
            self.layout.pwd,
            self.layout.pack,
            self.layout.auth0,
            self.layout.access,
            self.layout.lock,
        ];
        assert(pages@ =~= config_pages(self.layout));
        let data = self.read_pages(card, pages.as_slice())?;
        let pwd = data[0];
        let pack = data[1];
        let auth0 = data[2];
        let access = data[3];
        let lock = data[4];
        let config = NtagConfig {
            password: pwd,
            pack: [pack[0], pack[1]],
            access: [access[0], access[1]],
            auth_limit: auth0[0],
            password_protected: access[0] & PROTECT_BIT != 0,
            read_only: access[1] & READ_ONLY_BIT != 0,
            locked: lock[0] == LOCK_SENTINEL && lock[1] == LOCK_SENTINEL,
        };
        proof {
            let t = appended(old(card).log(), card.log());
            let seen = reads_result(t)->Ok_0;
            assert(config.pack@ =~= seen[1].take(2));
            assert(config.access@ =~= seen[3].take(2));
        }
        Ok(config)
    }

    /// Switches password protection on for the pages from `auth_limit`
    /// upward. A tag whose lock page shows it as locked is refused with
    /// [`TagError::Locked`] before anything is written. The password and its
    /// acknowledge are written before the
    /// protection-enable bit, so that a failure half-way leaves the tag
    /// writable. What was written stays written when a later step fails. At
    /// the end the access page is read back, and the call succeeds only if it
    /// shows the bit.
    pub fn set_password<R: NfcCard>(
        &self,
        card: &mut LibnfcCardWrapper<R>,
        password: &[u8; 4],
        pack: &[u8; 2],
        auth_limit: u8,
    ) -> (r: Result<(), TagError>)
        ensures
            extends(old(card).log(), final(card).log()),
            set_password_trace(
                self.layout,
                password@,
                pack@,
                auth_limit,
                appended(old(card).log(), final(card).log()),
                r,
            ),
    {
        let ghost start = card.log();
        match self.read_block(card, self.layout.lock) {
            Ok(lock) => {
                if lock[0] == LOCK_SENTINEL && lock[1] == LOCK_SENTINEL {
                    return Err(TagError::Locked);
                }
            },
            Err(_) => {},
        }
        let ghost log0 = card.log();
        let pages = vec![self.layout.pwd, self.layout.pack, self.layout.auth0, self.layout.access];
        let data = vec![
            *password,
            [pack[0], pack[1], 0u8, 0u8],
            [auth_limit, 0u8, 0u8, 0u8],
            [PROTECT_BIT, 0u8, 0u8, 0u8],
        ];
        proof {
            assert(pages@ =~= password_pages(self.layout));
            let want = password_data(password@, pack@, auth_limit);
            assert(page_list(data@)[1] =~= want[1]);
            assert(page_list(data@)[2] =~= want[2]);
            assert(page_list(data@)[3] =~= want[3]);
            assert(page_list(data@) =~= want);
        }
        let written = self.write_pages(card, pages.as_slice(), data.as_slice(), false);
        let ghost mid = card.log();
        proof {
            let t = appended(log0, mid);
            assert(t.take(t.len() as int) =~= t);
        }
        match written {
            Err(e) => {
                proof {
                    let rest = appended(log0, card.log());
                    lemma_extends_grew(log0, card.log());
                    lemma_grew_twice(start, log0, card.log(), rest);
                    assert(appended(start, card.log()).skip(1) =~= rest);
                }
                return Err(e);
            },
            Ok(()) => {},
        }
        let seen = self.read_block(card, self.layout.access);
        proof {
            let t = appended(mid, card.log());
            lemma_extends_grew(mid, card.log());
            lemma_grew_twice(log0, mid, card.log(), t);
            let all = appended(log0, card.log());
            assert(all.take(4) =~= appended(log0, mid));
            assert(all[4] == t[0]);
            lemma_extends_grew(log0, card.log());
            lemma_grew_twice(start, log0, card.log(), all);
            assert(appended(start, card.log()).skip(1) =~= all);
        }
        match seen {
            Err(e) => Err(e),
            Ok(page) => {
                if page[0] & PROTECT_BIT != 0 {
                    Ok(())
                } else {
                    Err(TagError::NotConfirmed)
                }
            },
        }
    }

    /// Switches password protection off by writing zeroes to the password,
    /// acknowledge, threshold and access pages, in that order.
    pub fn remove_password<R: NfcCard>(&self, card: &mut LibnfcCardWrapper<R>) -> (r: Result<
        (),
        TagError,
    >)
        ensures
            extends(old(card).log(), final(card).log()),
            remove_password_trace(self.layout, appended(old(card).log(), final(card).log()), r),
    {
        let pages = vec![self.layout.pwd, self.layout.pack, self.layout.auth0, self.layout.access];
        let zero: [u8; 4] = [0u8, 0u8, 0u8, 0u8];
        let data = vec![zero, zero, zero, zero];
        proof {
            assert(pages@ =~= password_pages(self.layout));
            let want = cleared_data();
            assert(zero@ =~= seq![0u8, 0u8, 0u8, 0u8]);
            assert(page_list(data@) =~= want);
        }
        self.write_pages(card, pages.as_slice(), data.as_slice(), false)
    }

    /// Makes the tag read-only for good: sets the read-only bit of the
    /// access page, writes the lock sentinel, and reads the lock page back.
    /// The call succeeds only if the lock page then shows the sentinel. The
    /// lock cannot be undone, and nothing here asks for confirmation.
    pub fn set_read_only<R: NfcCard>(&self, card: &mut LibnfcCardWrapper<R>) -> (r: Result<
        (),
        TagError,
    >)
        ensures
            extends(old(card).log(), final(card).log()),
            read_only_trace(self.layout, appended(old(card).log(), final(card).log()), r),
    {
        let ghost log0 = card.log();
        let access = self.read_block(card, self.layout.access)?;
        let ghost log1 = card.log();
        let marked: [u8; 4] = [access[0], access[1] | READ_ONLY_BIT, access[2], access[3]];
        assert(marked@ =~= with_read_only(access@));
        let first = self.write_block(card, self.layout.access, &marked);
        let ghost log2 = card.log();
        proof {
            let t = appended(log1, log2);
            lemma_extends_grew(log1, log2);
            lemma_grew_twice(log0, log1, log2, t);
        }
        match first {
            Err(e) => {
                return Err(e);
            },
            Ok(()) => {},
        }
        let sentinel: [u8; 4] = [LOCK_SENTINEL, LOCK_SENTINEL, 0u8, 0u8];
        assert(sentinel@ =~= seq![LOCK_SENTINEL, LOCK_SENTINEL, 0u8, 0u8]);
        let second = self.write_block(card, self.layout.lock, &sentinel);
        let ghost log3 = card.log();
        proof {
            let t = appended(log2, log3);
            lemma_extends_grew(log2, log3);
            lemma_grew_twice(log0, log2, log3, t);
        }
        match second {
            Err(e) => {
                return Err(e);
            },
            Ok(()) => {},
        }
        let seen = self.read_block(card, self.layout.lock);
        proof {
            let t = appended(log3, card.log());
            lemma_extends_grew(log3, card.log());
            lemma_grew_twice(log0, log3, card.log(), t);
        }
        match seen {
            Err(e) => Err(e),
            Ok(page) => {
                if page[0] == LOCK_SENTINEL && page[1] == LOCK_SENTINEL {
                    Ok(())
                } else {
                    Err(TagError::NotConfirmed)
                }
            },
        }
    }
}

/// A complete authentication is the authentication that its trace begins
/// with, and nothing follows it.
pub proof fn lemma_auth_alone(trace: Seq<Exchange>)
    requires
        trace.len() == auth_len(trace),
    ensures
        trace.take(auth_len(trace)) == trace,
        after_auth(trace).len() == 0,
{
    assert(trace.take(auth_len(trace)) =~= trace);
}

/// A complete authentication followed by more exchanges is still the
/// authentication that the joined trace begins with.
pub proof fn lemma_auth_then(auth: Seq<Exchange>, rest: Seq<Exchange>)
    requires
        auth.len() == auth_len(auth),
    ensures
        auth_len(auth + rest) == auth_len(auth),
        (auth + rest).take(auth_len(auth + rest)) == auth,
        after_auth(auth + rest) == rest,
{
    let all = auth + rest;
    assert(all[1] == auth[1]);
    if auth.len() >= 3 {
        assert(all[2] == auth[2]);
    }
    assert(all.take(auth_len(auth)) =~= auth);
    assert(all.skip(auth_len(auth)) =~= rest);
}

} // verus!
