//! The credential-source configuration and its adapters.
//!
//! Each adapter turns its part of the configuration into either "not
//! configured" or an ordered work list, validating counts and formats on the
//! way. The work that only a collaborator can do — decrypting a keystore
//! file, deriving a key from a phrase, prompting the operator, talking to a
//! device — takes a work-list entry and hands back a [`SigningIdentity`];
//! `find_all` then matches every identity against the targets in priority
//! order.

use vstd::prelude::*;
use crate::address::Address;
use crate::address_set::AddressSet;
use crate::engine::{run_sources, run_wallets, step_state, ResolveState, Resolver};
use crate::error::WalletError;
use crate::identity::SigningIdentity;
use crate::wallet_map::{key_seq, WalletMap};

verus! {

/// Whether `c` is an ASCII hexadecimal digit.
pub open spec fn is_hex_digit(c: char) -> bool {
    ||| (48 <= c as u32 && c as u32 <= 57)
    ||| (97 <= c as u32 && c as u32 <= 102)
    ||| (65 <= c as u32 && c as u32 <= 70)
}

/// Whether `c` is ASCII whitespace: space, tab, line feed, vertical tab,
/// form feed or carriage return.
pub open spec fn is_ascii_space(c: char) -> bool {
    c as u32 == 32 || (9 <= c as u32 && c as u32 <= 13)
}

/// `s` without its leading ASCII whitespace.
pub open spec fn trim_start_spec(s: Seq<char>) -> Seq<char>
    decreases s.len(),
{
    if s.len() > 0 && is_ascii_space(s[0]) {
        trim_start_spec(s.drop_first())
    } else {
        s
    }
}

/// `s` without its trailing ASCII whitespace.
pub open spec fn trim_end_spec(s: Seq<char>) -> Seq<char>
    decreases s.len(),
{
    if s.len() > 0 && is_ascii_space(s.last()) {
        trim_end_spec(s.drop_last())
    } else {
        s
    }
}

/// `s` without surrounding ASCII whitespace.
pub open spec fn trim_spec(s: Seq<char>) -> Seq<char> {
    trim_end_spec(trim_start_spec(s))
}

proof fn lemma_trim_start_at(s: Seq<char>, a: int)
    requires
        0 <= a <= s.len(),
        forall|j: int| 0 <= j < a ==> is_ascii_space(#[trigger] s[j]),
        a < s.len() ==> !is_ascii_space(s[a]),
    ensures
        trim_start_spec(s) == s.subrange(a, s.len() as int),
    decreases a,
{
    if a == 0 {
        assert(s.subrange(0, s.len() as int) =~= s);
    } else {
        assert(is_ascii_space(s[0]));
        lemma_trim_start_at(s.drop_first(), a - 1);
        assert(s.drop_first().subrange(a - 1, s.drop_first().len() as int) =~= s.subrange(
            a,
            s.len() as int,
        ));
    }
}

proof fn lemma_trim_end_at(s: Seq<char>, b: int)
    requires
        0 <= b <= s.len(),
        forall|j: int| b <= j < s.len() ==> is_ascii_space(#[trigger] s[j]),
        b > 0 ==> !is_ascii_space(s[b - 1]),
    ensures
        trim_end_spec(s) == s.subrange(0, b),
    decreases s.len() - b,
{
    if b == s.len() {
        if s.len() > 0 && is_ascii_space(s.last()) {
            assert(!is_ascii_space(s[s.len() - 1]));
        }
        assert(s.subrange(0, s.len() as int) =~= s);
    } else {
        assert(is_ascii_space(s.last()));
        lemma_trim_end_at(s.drop_last(), b);
        assert(s.drop_last().subrange(0, b) =~= s.subrange(0, b));
    }
}

/// Strips surrounding ASCII whitespace.
fn trim_chars<'a>(s: &'a str) -> (r: &'a str)
    ensures
        r@ == trim_spec(s@),
{
    let n = s.unicode_len();
    let mut a: usize = 0;
    let mut scanning = true;
    while scanning
        invariant
            0 <= a <= n,
            n == s@.len(),
            forall|j: int| 0 <= j < a ==> is_ascii_space(#[trigger] s@[j]),
            !scanning ==> (a == n || !is_ascii_space(s@[a as int])),
        decreases n - a, (if scanning { 1int } else { 0int }),
    {
        if a < n {
            let c = s.get_char(a);
            let u = c as u32;
            if u == 32 || (9 <= u && u <= 13) {
                a = a + 1;
            } else {
                scanning = false;
            }
        } else {
            scanning = false;
        }
    }
    let mut b: usize = n;
    let mut scanning_back = true;
    while scanning_back
        invariant
            0 <= a <= b <= n,
            n == s@.len(),
            a == n || !is_ascii_space(s@[a as int]),
            forall|j: int| 0 <= j < a ==> is_ascii_space(#[trigger] s@[j]),
            forall|j: int| b <= j < n ==> is_ascii_space(#[trigger] s@[j]),
            !scanning_back ==> (b == a || !is_ascii_space(s@[b - 1])),
        decreases b, (if scanning_back { 1int } else { 0int }),
    {
        if b > a {
            let c = s.get_char(b - 1);
            let u = c as u32;
            if u == 32 || (9 <= u && u <= 13) {
                b = b - 1;
            } else {
                scanning_back = false;
            }
        } else {
            scanning_back = false;
        }
    }
    let r = s.substring_char(a, b);
    proof {
        lemma_trim_start_at(s@, a as int);
        let sub = s@.subrange(a as int, n as int);
        if b == a {
            assert(b == a || !is_ascii_space(s@[b - 1]));
            assert(a == n) by {
                if a < n {
                    assert(!is_ascii_space(s@[a as int]));
                    assert(is_ascii_space(s@[a as int]));
                }
            }
            assert(sub.len() == 0);
            assert(trim_end_spec(sub) == sub);
            assert(r@ =~= sub);
        } else {
            assert forall|j: int| b - a <= j < sub.len() implies is_ascii_space(
                #[trigger] sub[j],
            ) by {
                assert(sub[j] == s@[a + j]);
            }
            assert(!is_ascii_space(sub[b - a - 1]));
            lemma_trim_end_at(sub, b - a);
            assert(sub.subrange(0, b - a) =~= s@.subrange(a as int, b as int));
        }
    }
    r
}

/// `s` without its optional leading "0x".
pub open spec fn strip_hex_prefix(s: Seq<char>) -> Seq<char> {
    if s.len() >= 2 && s[0] == '0' && s[1] == 'x' {
        s.subrange(2, s.len() as int)
    } else {
        s
    }
}

/// The canonical form of a raw private key string: surrounding ASCII
/// whitespace removed, then the optional "0x" prefix stripped.
pub open spec fn canonical_key(s: Seq<char>) -> Seq<char> {
    strip_hex_prefix(trim_spec(s))
}

/// A well-formed raw private key: after trimming surrounding whitespace and
/// stripping the optional "0x" prefix, exactly 64 hexadecimal digits.
pub open spec fn key_well_formed(s: Seq<char>) -> bool {
    &&& canonical_key(s).len() == 64
    &&& (forall|i: int|
        0 <= i < canonical_key(s).len() ==> is_hex_digit(#[trigger] canonical_key(s)[i]))
}

/// Trims surrounding whitespace, strips the optional "0x" prefix and checks
/// that what remains is a 64-digit hexadecimal string; `None` if it is not.
pub fn normalize_key(s: &str) -> (r: Option<String>)
    ensures
        match r {
            Some(t) => key_well_formed(s@) && t@ == canonical_key(s@),
            None => !key_well_formed(s@),
        },
{
    let trimmed = trim_chars(s);
    let n = trimmed.unicode_len();
    let stripped: &str = if n >= 2 && trimmed.get_char(0) == '0' && trimmed.get_char(1) == 'x' {
        trimmed.substring_char(2, n)
    } else {
        trimmed
    };
    assert(stripped@ == canonical_key(s@));
    let m = stripped.unicode_len();
    if m != 64 {
        return None;
    }
    let mut i: usize = 0;
    while i < 64
        invariant
            0 <= i <= 64,
            stripped@ == canonical_key(s@),
            stripped@.len() == 64,
            forall|j: int| 0 <= j < i ==> is_hex_digit(#[trigger] stripped@[j]),
        decreases 64 - i,
    {
        let c = stripped.get_char(i);
        let u = c as u32;
        if !((48 <= u && u <= 57) || (97 <= u && u <= 102) || (65 <= u && u <= 70)) {
            assert(!is_hex_digit(stripped@[i as int]));
            return None;
        }
        i = i + 1;
    }
    Some(stripped.to_owned())
}

/// One keystore to open: the file path and the password to try, `None`
/// meaning the keystore's own empty/absent-password handling.
#[derive(Clone, Debug)]
pub struct KeystoreJob {
    pub path: String,
    pub password: Option<String>,
}

/// One mnemonic derivation to perform.
#[derive(Clone, Debug)]
pub struct MnemonicJob {
    pub mnemonic: String,
    pub passphrase: Option<String>,
    pub hd_path: Option<String>,
    pub index: u32,
}

/// One hardware-device interaction: an explicit derivation path overrides
/// live-index derivation.
#[derive(Clone, Debug)]
pub enum Derivation {
    Path(String),
    Index(u32),
}

/// Whether passwords were supplied at all (an empty list counts as none,
/// deferring to each keystore's own handling).
pub open spec fn has_passwords(o: Option<Vec<String>>) -> bool {
    o matches Some(v) && v@.len() > 0
}

/// The keystore jobs pair each path with its positional password, or with
/// `None` throughout when no passwords were supplied.
pub open spec fn keystore_jobs_ok(
    paths: Seq<String>,
    passwords: Option<Vec<String>>,
    jobs: Seq<KeystoreJob>,
) -> bool {
    &&& jobs.len() == paths.len()
    &&& (forall|i: int| #![trigger jobs[i]]
        0 <= i < paths.len() ==> {
            &&& jobs[i].path@ == paths[i]@
            &&& (if has_passwords(passwords) {
                jobs[i].password matches Some(p) && p@ == passwords->Some_0@[i]@
            } else {
                jobs[i].password is None
            })
        })
}

/// The mnemonic jobs resolve path, passphrase and index positionally, with
/// missing positions defaulting to `None` and `0` (zip with default, never
/// truncation).
pub open spec fn mnemonic_jobs_ok(w: MultiWallet, ms: Seq<String>, jobs: Seq<MnemonicJob>) -> bool {
    &&& jobs.len() == ms.len()
    &&& (forall|i: int| #![trigger jobs[i]]
        0 <= i < ms.len() ==> {
            &&& jobs[i].mnemonic@ == ms[i]@
            &&& (jobs[i].hd_path is Some <==> (w.hd_paths matches Some(hp) && i < hp@.len()))
            &&& (jobs[i].hd_path matches Some(p) ==> p@ == w.hd_paths->Some_0@[i]@)
            &&& (jobs[i].passphrase is Some <==> (w.mnemonic_passphrases matches Some(pp) && i
                < pp@.len()))
            &&& (jobs[i].passphrase matches Some(p) ==> p@ == w.mnemonic_passphrases->Some_0@[i]@)
            &&& jobs[i].index == (match w.mnemonic_indexes {
                Some(ix) => if i < ix@.len() { ix@[i] } else { 0u32 },
                None => 0u32,
            })
        })
}

/// The views of an optional string list; empty when absent.
pub open spec fn opt_str_views(o: Option<Vec<String>>) -> Seq<Seq<char>> {
    match o {
        Some(v) => v@.map_values(|s: String| s@),
        None => Seq::<Seq<char>>::empty(),
    }
}

/// An optional index list; empty when absent.
pub open spec fn opt_u32_seq(o: Option<Vec<u32>>) -> Seq<u32> {
    match o {
        Some(v) => v@,
        None => Seq::<u32>::empty(),
    }
}

/// A hardware work list: one entry per configured derivation path, then one
/// per configured index; a single live-index-0 entry when neither was
/// configured.
pub open spec fn is_worklist(r: Seq<Derivation>, paths: Seq<Seq<char>>, idxs: Seq<u32>) -> bool {
    if paths.len() + idxs.len() == 0 {
        r.len() == 1 && (r[0] matches Derivation::Index(k) && k == 0)
    } else {
        &&& r.len() == paths.len() + idxs.len()
        &&& (forall|i: int| #![trigger r[i]]
            0 <= i < paths.len() ==> (r[i] matches Derivation::Path(p) && p@ == paths[i]))
        &&& (forall|j: int|
            0 <= j < idxs.len() ==> ((#[trigger] r[paths.len() + j]) matches Derivation::Index(k)
                && k == idxs[j]))
    }
}

/// Builds the device work list from the configured paths and indices.
fn build_worklist(hd_paths: &Option<Vec<String>>, indexes: &Option<Vec<u32>>) -> (r: Vec<
    Derivation,
>)
    ensures
        is_worklist(r@, opt_str_views(*hd_paths), opt_u32_seq(*indexes)),
{
    let ghost pview = opt_str_views(*hd_paths);
    let ghost iview = opt_u32_seq(*indexes);
    let mut work: Vec<Derivation> = Vec::new();
    match hd_paths {
        Some(paths) => {
            let mut i: usize = 0;
            while i < paths.len()
                invariant
                    0 <= i <= paths.len(),
                    pview == opt_str_views(*hd_paths),
                    hd_paths matches Some(p) && p@ == paths@,
                    pview.len() == paths@.len(),
                    work@.len() == i,
                    forall|j: int| #![trigger work@[j]]
                        0 <= j < i ==> (work@[j] matches Derivation::Path(p) && p@ == pview[j]),
                decreases paths.len() - i,
            {
                let p = &paths[i];
                work.push(Derivation::Path(p.clone()));
                i = i + 1;
            }
        },
        None => {},
    }
    let ghost np = work@.len();
    proof {
        assert(np == pview.len());
    }
    match indexes {
        Some(idxs) => {
            let mut j: usize = 0;
            while j < idxs.len()
                invariant
                    0 <= j <= idxs.len(),
                    iview == opt_u32_seq(*indexes),
                    indexes matches Some(v) && v@ == idxs@,
                    iview.len() == idxs@.len(),
                    work@.len() == np + j,
                    np == pview.len(),
                    forall|k: int| #![trigger work@[k]]
                        0 <= k < np ==> (work@[k] matches Derivation::Path(p) && p@ == pview[k]),
                    forall|k: int|
                        0 <= k < j ==> ((#[trigger] work@[np + k]) matches Derivation::Index(x)
                            && x == iview[k]),
                decreases idxs.len() - j,
            {
                let x = idxs[j];
                work.push(Derivation::Index(x));
                j = j + 1;
            }
        },
        None => {},
    }
    if work.len() == 0 {
        work.push(Derivation::Index(0));
    }
    work
}

/// A source's output, as the contracts see it: nothing when the source was
/// not configured.
pub open spec fn opt_wallets(o: Option<Vec<SigningIdentity>>) -> Seq<SigningIdentity> {
    match o {
        Some(v) => v@,
        None => Seq::<SigningIdentity>::empty(),
    }
}

/// The full priority-ordered list of source outputs that `find_all`
/// consumes: the configured sources' outputs, then the pre-instantiated
/// wallets.
pub open spec fn all_sources(
    srcs: Seq<Option<Vec<SigningIdentity>>>,
    script: Seq<SigningIdentity>,
) -> Seq<Seq<SigningIdentity>> {
    srcs.map_values(|o: Option<Vec<SigningIdentity>>| opt_wallets(o)).push(script)
}

/// The credential-source configuration: which sources are enabled and with
/// what paths, passwords, phrases, counts and derivation parameters.
#[derive(Clone, Debug, Default)]
pub struct MultiWallet {
    pub interactives: u32,
    pub private_keys: Option<Vec<String>>,
    pub private_key: Option<String>,
    pub mnemonics: Option<Vec<String>>,
    pub mnemonic_passphrases: Option<Vec<String>>,
    pub hd_paths: Option<Vec<String>>,
    pub mnemonic_indexes: Option<Vec<u32>>,
    pub keystore_paths: Option<Vec<String>>,
    pub keystore_passwords: Option<Vec<String>>,
    pub ledger: bool,
    pub trezor: bool,
    pub froms: Option<Vec<Address>>,
}

impl MultiWallet {
    /// The sender account: the first configured target address, if any.
    pub fn sender(&self) -> (r: Option<Address>)
        ensures
            match r {
                Some(a) => self.froms matches Some(f) && f@.len() > 0 && a == f@[0],
                None => self.froms is None || self.froms->Some_0@.len() == 0,
            },
    {
        match &self.froms {
            Some(f) => {
                if f.len() > 0 {
                    Some(f[0])
                } else {
                    None
                }
            },
            None => None,
        }
    }

    /// How many secrets to prompt for interactively; `None` when the counter
    /// is zero, meaning the source is not configured.
    pub fn interactives(&self) -> (r: Option<u32>)
        ensures
            r == (if self.interactives == 0 {
                None::<u32>
            } else {
                Some(self.interactives)
            }),
    {
        if self.interactives == 0 {
            None
        } else {
            Some(self.interactives)
        }
    }

    /// The supplied raw private keys, each trimmed of surrounding
    /// whitespace and stripped of its optional "0x" prefix; fails with
    /// `InvalidKey` if any is not 64 hexadecimal digits.
    pub fn private_keys(&self) -> (r: Result<Option<Vec<String>>, WalletError>)
        ensures
            match r {
                Ok(None) => self.private_keys is None,
                Ok(Some(ks)) => self.private_keys matches Some(src) && ks@.len() == src@.len()
                    && (forall|i: int| #![trigger src@[i]]
                    0 <= i < src@.len() ==> key_well_formed(src@[i]@)) && (forall|i: int|
                    #![trigger ks@[i]]
                    0 <= i < src@.len() ==> ks@[i]@ == canonical_key(src@[i]@)),
                Err(e) => e is InvalidKey && (self.private_keys matches Some(src) && (exists|i: int|
                    0 <= i < src@.len() && !key_well_formed(#[trigger] src@[i]@))),
            },
    {
        match &self.private_keys {
            None => Ok(None),
            Some(keys) => {
                let mut out: Vec<String> = Vec::new();
                let mut i: usize = 0;
                while i < keys.len()
                    invariant
                        0 <= i <= keys.len(),
                        out@.len() == i,
                        self.private_keys matches Some(k) && k@ == keys@,
                        forall|j: int| #![trigger keys@[j]]
                            0 <= j < i ==> key_well_formed(keys@[j]@),
                        forall|j: int| #![trigger out@[j]]
                            0 <= j < i ==> out@[j]@ == canonical_key(keys@[j]@),
                    decreases keys.len() - i,
                {
                    let ki = &keys[i];
                    match normalize_key(ki.as_str()) {
                        Some(t) => {
                            out.push(t);
                        },
                        None => {
                            return Err(WalletError::InvalidKey);
                        },
                    }
                    i = i + 1;
                }
                Ok(Some(out))
            },
        }
    }

    /// The keystores to open, pairing each path positionally with its
    /// password. Supplied passwords must match the paths in count exactly;
    /// with none supplied, every keystore is tried without a password.
    pub fn keystores(&self) -> (r: Result<Option<Vec<KeystoreJob>>, WalletError>)
        ensures
            match r {
                Ok(None) => self.keystore_paths is None,
                Ok(Some(jobs)) => self.keystore_paths matches Some(paths) && (has_passwords(
                    self.keystore_passwords,
                ) ==> self.keystore_passwords->Some_0@.len() == paths@.len()) && keystore_jobs_ok(
                    paths@,
                    self.keystore_passwords,
                    jobs@,
                ),
                Err(e) => e is PasswordCountMismatch && (self.keystore_paths matches Some(paths)
                    && has_passwords(self.keystore_passwords)
                    && self.keystore_passwords->Some_0@.len() != paths@.len()),
            },
    {
        match &self.keystore_paths {
            None => Ok(None),
            Some(paths) => {
                let with_passwords: bool = match &self.keystore_passwords {
                    Some(pws) => pws.len() > 0,
                    None => false,
                };
                if with_passwords {
                    let pws = match &self.keystore_passwords {
                        Some(pws) => pws,
                        None => {
                            return Err(WalletError::PasswordCountMismatch);
                        },
                    };
                    if pws.len() != paths.len() {
                        return Err(WalletError::PasswordCountMismatch);
                    }
                    let mut jobs: Vec<KeystoreJob> = Vec::new();
                    let mut i: usize = 0;
                    while i < paths.len()
                        invariant
                            0 <= i <= paths.len(),
                            jobs@.len() == i,
                            pws@.len() == paths@.len(),
                            forall|j: int| #![trigger jobs@[j]]
                                0 <= j < i ==> jobs@[j].path@ == paths@[j]@
                                    && (jobs@[j].password matches Some(p) && p@ == pws@[j]@),
                        decreases paths.len() - i,
                    {
                        let p = &paths[i];
                        let w = &pws[i];
                        jobs.push(KeystoreJob { path: p.clone(), password: Some(w.clone()) });
                        i = i + 1;
                    }
                    Ok(Some(jobs))
                } else {
                    let mut jobs: Vec<KeystoreJob> = Vec::new();
                    let mut i: usize = 0;
                    while i < paths.len()
                        invariant
                            0 <= i <= paths.len(),
                            jobs@.len() == i,
                            forall|j: int| #![trigger jobs@[j]]
                                0 <= j < i ==> jobs@[j].path@ == paths@[j]@ && jobs@[j].password
                                    is None,
                        decreases paths.len() - i,
                    {
                        let p = &paths[i];
                        jobs.push(KeystoreJob { path: p.clone(), password: None });
                        i = i + 1;
                    }
                    Ok(Some(jobs))
                }
            },
        }
    }

    /// The mnemonic derivations to perform, one per configured phrase, with
    /// path, passphrase and index resolved positionally; positions past the
    /// end of a parallel list default to `None`/`0`.
    pub fn mnemonics(&self) -> (r: Option<Vec<MnemonicJob>>)
        ensures
            match r {
                None => self.mnemonics is None,
                Some(jobs) => self.mnemonics matches Some(ms) && mnemonic_jobs_ok(
                    *self,
                    ms@,
                    jobs@,
                ),
            },
    {
        match &self.mnemonics {
            None => None,
            Some(ms) => {
                let mut jobs: Vec<MnemonicJob> = Vec::new();
                let mut i: usize = 0;
                while i < ms.len()
                    invariant
                        0 <= i <= ms.len(),
                        jobs@.len() == i,
                        self.mnemonics matches Some(m) && m@ == ms@,
                        forall|j: int| #![trigger jobs@[j]]
                            0 <= j < i ==> {
                                &&& jobs@[j].mnemonic@ == ms@[j]@
                                &&& (jobs@[j].hd_path is Some <==> (self.hd_paths matches Some(hp)
                                    && j < hp@.len()))
                                &&& (jobs@[j].hd_path matches Some(p) ==> p@
                                    == self.hd_paths->Some_0@[j]@)
                                &&& (jobs@[j].passphrase is Some <==> (self.mnemonic_passphrases
                                    matches Some(pp) && j < pp@.len()))
                                &&& (jobs@[j].passphrase matches Some(p) ==> p@
                                    == self.mnemonic_passphrases->Some_0@[j]@)
                                &&& jobs@[j].index == (match self.mnemonic_indexes {
                                    Some(ix) => if j < ix@.len() { ix@[j] } else { 0u32 },
                                    None => 0u32,
                                })
                            },
                    decreases ms.len() - i,
                {
                    let hd_path: Option<String> = match &self.hd_paths {
                        Some(hp) => {
                            if i < hp.len() {
                                Some(hp[i].clone())
                            } else {
                                None
                            }
                        },
                        None => None,
                    };
                    let passphrase: Option<String> = match &self.mnemonic_passphrases {
                        Some(pp) => {
                            if i < pp.len() {
                                Some(pp[i].clone())
                            } else {
                                None
                            }
                        },
                        None => None,
                    };
                    let index: u32 = match &self.mnemonic_indexes {
                        Some(ix) => {
                            if i < ix.len() {
                                ix[i]
                            } else {
                                0
                            }
                        },
                        None => 0,
                    };
                    let m = &ms[i];
                    jobs.push(
                        MnemonicJob { mnemonic: m.clone(), passphrase, hd_path, index },
                    );
                    i = i + 1;
                }
                Some(jobs)
            },
        }
    }

    /// The single-signer device's work list. More than one configured
    /// derivation path is rejected up front, and any configured path takes
    /// precedence over the index list, which is then ignored.
    pub fn ledgers(&self) -> (r: Result<Option<Vec<Derivation>>, WalletError>)
        ensures
            match r {
                Ok(None) => !self.ledger,
                Ok(Some(work)) => self.ledger && (self.hd_paths matches Some(p) ==> p@.len() <= 1)
                    && is_worklist(
                    work@,
                    opt_str_views(self.hd_paths),
                    if self.hd_paths is Some {
                        Seq::<u32>::empty()
                    } else {
                        opt_u32_seq(self.mnemonic_indexes)
                    },
                ),
                Err(e) => e is MultiPathUnsupported && self.ledger && (self.hd_paths matches Some(
                    p,
                ) && p@.len() > 1),
            },
    {
        if !self.ledger {
            return Ok(None);
        }
        match &self.hd_paths {
            Some(paths) => {
                if paths.len() > 1 {
                    return Err(WalletError::MultiPathUnsupported);
                }
                let cleared: Option<Vec<u32>> = None;
                Ok(Some(build_worklist(&self.hd_paths, &cleared)))
            },
            None => Ok(Some(build_worklist(&self.hd_paths, &self.mnemonic_indexes))),
        }
    }

    /// The live-index device's work list: one entry per configured
    /// derivation path; indices yield entries only when no explicit paths
    /// were given (path selection takes precedence); the single index-0
    /// fallback when neither was configured.
    pub fn trezors(&self) -> (r: Option<Vec<Derivation>>)
        ensures
            match r {
                None => !self.trezor,
                Some(work) => self.trezor && is_worklist(
                    work@,
                    opt_str_views(self.hd_paths),
                    if self.hd_paths is Some {
                        Seq::<u32>::empty()
                    } else {
                        opt_u32_seq(self.mnemonic_indexes)
                    },
                ),
            },
    {
        if self.trezor {
            match &self.hd_paths {
                Some(_) => {
                    let cleared: Option<Vec<u32>> = None;
                    Some(build_worklist(&self.hd_paths, &cleared))
                },
                None => Some(build_worklist(&self.hd_paths, &self.mnemonic_indexes)),
            }
        } else {
            None
        }
    }

    /// Given the chain id, the target addresses, the pre-instantiated
    /// wallets and every configured source's output in priority order
    /// (single-signer device, live-index device, raw keys, interactive
    /// prompts, mnemonics, keystores; the pre-instantiated wallets come
    /// last), finds the wallet for each target: each identity is bound to
    /// the chain id and the first source to produce an address claims it.
    /// Succeeds with the full address-to-identity map the instant every
    /// target is claimed; once that happens no later output is consumed.
    /// Fails with `UnresolvedAddresses` otherwise.
    pub fn find_all(
        &self,
        chain: u64,
        addresses: AddressSet,
        script_wallets: Vec<SigningIdentity>,
        sources: Vec<Option<Vec<SigningIdentity>>>,
    ) -> (r: Result<WalletMap, WalletError>)
        requires
            addresses.wf(),
        ensures
            ({
                let fin = run_sources(
                    ResolveState::init(addresses@),
                    all_sources(sources@, script_wallets@),
                    chain,
                );
                match r {
                    Ok(m) => fin.done() && m.wf() && m.entries@ == fin.claimed,
                    Err(e) => {
                        &&& !fin.done()
                        &&& (e matches WalletError::UnresolvedAddresses { remaining, unused }
                            && remaining.wf() && remaining@ == fin.targets && unused@ == fin.unused
                            + key_seq(fin.claimed))
                    },
                }
            }),
    {
        let ghost all = all_sources(sources@, script_wallets@);
        let ghost init = ResolveState::init(addresses@);
        let mut resolver = Resolver::new(chain, addresses);
        proof {
            assert(all.subrange(0, all.len() as int) =~= all);
        }
        let mut i: usize = 0;
        while i < sources.len()
            invariant
                0 <= i <= sources.len(),
                resolver.wf(),
                resolver.chain == chain,
                all == all_sources(sources@, script_wallets@),
                all.len() == sources@.len() + 1,
                init == ResolveState::init(addresses@),
                run_sources(resolver.state(), all.subrange(i as int, all.len() as int), chain)
                    == run_sources(init, all, chain),
            decreases sources.len() - i,
        {
            let ghost pre = resolver.state();
            let ghost rest = all.subrange(i as int, all.len() as int);
            proof {
                assert(rest[0] == all[i as int]);
                assert(all[i as int] == opt_wallets(sources@[i as int]));
                assert(rest.drop_first() =~= all.subrange(i + 1, all.len() as int));
            }
            match &sources[i] {
                Some(v) => {
                    resolver.feed_source(v);
                    proof {
                        if pre.done() {
                            assert(run_wallets(pre, v@, chain) == pre);
                            assert(run_sources(pre, rest, chain) == pre);
                            assert(run_sources(
                                pre,
                                all.subrange(i + 1, all.len() as int),
                                chain,
                            ) == pre);
                        } else {
                            assert(run_sources(pre, rest, chain) == run_sources(
                                run_wallets(pre, rest[0], chain),
                                rest.drop_first(),
                                chain,
                            ));
                        }
                    }
                },
                None => {
                    proof {
                        if pre.done() {
                            assert(run_sources(pre, rest, chain) == pre);
                            assert(run_sources(
                                pre,
                                all.subrange(i + 1, all.len() as int),
                                chain,
                            ) == pre);
                        } else {
                            assert(run_wallets(pre, rest[0], chain) == pre);
                            assert(run_sources(pre, rest, chain) == run_sources(
                                pre,
                                rest.drop_first(),
                                chain,
                            ));
                        }
                    }
                },
            }
            i = i + 1;
        }
        let ghost pre = resolver.state();
        let ghost rest = all.subrange(sources@.len() as int, all.len() as int);
        proof {
            assert(rest.len() == 1);
            assert(rest[0] == all[sources@.len() as int]);
            assert(all[sources@.len() as int] == script_wallets@);
        }
        resolver.feed_source(&script_wallets);
        proof {
            if pre.done() {
                assert(run_wallets(pre, script_wallets@, chain) == pre);
                assert(run_sources(pre, rest, chain) == pre);
            } else {
                assert(rest.drop_first() =~= Seq::<Seq<SigningIdentity>>::empty());
                assert(run_sources(pre, rest, chain) == run_sources(
                    run_wallets(pre, rest[0], chain),
                    rest.drop_first(),
                    chain,
                ));
            }
            assert(resolver.state() == run_sources(init, all, chain));
        }
        resolver.finish()
    }
}

} // verus!
