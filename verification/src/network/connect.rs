//! The decisions of a Wi-Fi connection request: what is checked before any
//! WLAN call, which profile is used, the security of a new profile, and
//! what is undone when the connection fails.
use vstd::prelude::*;

use crate::network::profile::{
    auth_alg_to_profile_auth, cipher_alg_to_profile_enc, is_enterprise_auth, parse_bssid,
    profile_auth_label, profile_enc_label, spec_is_enterprise_auth, spec_parse_bssid,
};
use crate::network::wifi::{ssid_text, ssid_to_string};
use crate::text::{
    chars_of, decimal, eq_ignore_case, eq_ignore_ascii_case, eq_str, push_all, push_str_chars,
    radix_digits, string_of, trim, trim_chars,
};

verus! {

pub open spec fn opt_text(s: Option<&str>) -> Option<Seq<char>> {
    match s {
        Some(x) => Some(x@),
        None => None,
    }
}

/// The trimmed value, when it is not blank.
pub open spec fn given(s: Option<Seq<char>>) -> Option<Seq<char>> {
    match s {
        Some(x) => if trim(x).len() > 0 {
            Some(trim(x))
        } else {
            None
        },
        None => None,
    }
}

fn given_exec(s: Option<&str>) -> (r: Option<String>)
    ensures
        match given(opt_text(s)) {
            Some(v) => r matches Some(x) && x@ == v,
            None => r is None,
        },
{
    match s {
        Some(x) => {
            let c = chars_of(x);
            let t = trim_chars(c.as_slice());
            if t.len() > 0 {
                Some(string_of(t.as_slice()))
            } else {
                None
            }
        },
        None => None,
    }
}

// ---------------------------------------------------------------------------
// The request
// ---------------------------------------------------------------------------
/// The trimmed SSID and the BSSID to prefer, or why the request is refused:
/// a blank SSID, or a BSSID that does not read.
pub open spec fn spec_validate_connect(ssid: Seq<char>, bssid: Option<Seq<char>>) -> Result<
    (Seq<char>, Option<Seq<u8>>),
    Seq<char>,
> {
    if trim(ssid).len() == 0 {
        Err("SSID is empty"@)
    } else {
        match given(bssid) {
            Some(b) => match spec_parse_bssid(b) {
                Ok(bytes) => Ok((trim(ssid), Some(bytes))),
                Err(m) => Err(m),
            },
            None => Ok((trim(ssid), None)),
        }
    }
}

pub fn validate_connect_request(ssid: &str, bssid: Option<&str>) -> (r: Result<
    (String, Option<[u8; 6]>),
    String,
>)
    ensures
        match spec_validate_connect(ssid@, opt_text(bssid)) {
            Ok((s, b)) => r matches Ok(v) && v.0@ == s && match b {
                Some(bytes) => v.1 matches Some(x) && x@ == bytes,
                None => v.1 is None,
            },
            Err(m) => r matches Err(e) && e@ == m,
        },
{
    let c = chars_of(ssid);
    let t = trim_chars(c.as_slice());
    if t.len() == 0 {
        let m = chars_of("SSID is empty");
        return Err(string_of(m.as_slice()));
    }
    let trimmed = string_of(t.as_slice());
    match given_exec(bssid) {
        Some(b) => match parse_bssid(b.as_str()) {
            Ok(bytes) => Ok((trimmed, Some(bytes))),
            Err(m) => Err(m),
        },
        None => Ok((trimmed, None)),
    }
}

/// The profile to connect with: the profile name given, else the SSID,
/// trimmed; a blank one is refused.
pub open spec fn spec_profile_name(profile_name: Option<Seq<char>>, ssid: Seq<char>) -> Result<
    Seq<char>,
    Seq<char>,
> {
    let name = trim(
        match profile_name {
            Some(p) => p,
            None => ssid,
        },
    );
    if name.len() == 0 {
        Err("profileName/SSID is empty"@)
    } else {
        Ok(name)
    }
}

pub fn connect_profile_name(profile_name: Option<&str>, ssid: &str) -> (r: Result<String, String>)
    ensures
        match spec_profile_name(opt_text(profile_name), ssid@) {
            Ok(n) => r matches Ok(v) && v@ == n,
            Err(m) => r matches Err(e) && e@ == m,
        },
{
    let raw = match profile_name {
        Some(p) => chars_of(p),
        None => chars_of(ssid),
    };
    let name = trim_chars(raw.as_slice());
    if name.len() == 0 {
        let m = chars_of("profileName/SSID is empty");
        Err(string_of(m.as_slice()))
    } else {
        Ok(string_of(name.as_slice()))
    }
}

/// Authentication and encryption as given, when both are.
pub fn requested_security(authentication: Option<&str>, encryption: Option<&str>) -> (r: Option<
    (String, String),
>)
    ensures
        match (given(opt_text(authentication)), given(opt_text(encryption))) {
            (Some(a), Some(e)) => r matches Some(v) && v.0@ == a && v.1@ == e,
            _ => r is None,
        },
{
    let a = given_exec(authentication);
    let e = given_exec(encryption);
    match (a, e) {
        (Some(a), Some(e)) => Some((a, e)),
        _ => None,
    }
}

// ---------------------------------------------------------------------------
// Inferring the security of a new profile
// ---------------------------------------------------------------------------
/// An entry of the available-network list, as far as inference reads it.
pub struct SecurityCandidate {
    pub ssid_len: u32,
    pub ssid_bytes: [u8; 32],
    pub connectable: bool,
    pub security_enabled: bool,
    pub signal: u32,
    pub auth_alg: u32,
    pub cipher_alg: u32,
}

/// The candidate chosen so far: (signal, secured, auth, cipher).
pub open spec fn pick_candidate(best: Option<(u32, bool, u32, u32)>, c: SecurityCandidate, ssid: Seq<
    char,
>) -> Option<(u32, bool, u32, u32)> {
    if ssid_text(c.ssid_len, c.ssid_bytes@) != ssid || !c.connectable {
        best
    } else {
        let me = (c.signal, c.security_enabled, c.auth_alg, c.cipher_alg);
        match best {
            None => Some(me),
            Some(b) => if (c.security_enabled && !b.1) || (c.security_enabled == b.1 && c.signal
                > b.0) {
                Some(me)
            } else {
                best
            },
        }
    }
}

/// Among the connectable entries of the SSID, a secured one if any, and of
/// those the strongest (the first on ties).
pub open spec fn best_candidate(cands: Seq<SecurityCandidate>, ssid: Seq<char>) -> Option<
    (u32, bool, u32, u32),
>
    decreases cands.len(),
{
    if cands.len() == 0 {
        None
    } else {
        pick_candidate(best_candidate(cands.drop_last(), ssid), cands.last(), ssid)
    }
}

/// The authentication and encryption of the chosen entry: `open`/`none`
/// when it is unsecured.
pub open spec fn spec_infer_security(cands: Seq<SecurityCandidate>, ssid: Seq<char>) -> Result<
    (Seq<char>, Seq<char>),
    Seq<char>,
> {
    match best_candidate(cands, ssid) {
        Some(b) => if !b.1 {
            Ok(("open"@, "none"@))
        } else {
            Ok((profile_auth_label(b.2), profile_enc_label(b.3)))
        },
        None => Err("Could not infer auth/encryption for ssid='"@ + ssid
            + "' from available network list"@),
    }
}

pub fn infer_auth_enc_from_available_list(cands: &[SecurityCandidate], ssid: &str) -> (r: Result<
    (String, String),
    String,
>)
    ensures
        match spec_infer_security(cands@, ssid@) {
            Ok((a, e)) => r matches Ok(v) && v.0@ == a && v.1@ == e,
            Err(m) => r matches Err(x) && x@ == m,
        },
{
    let mut best: Option<(u32, bool, u32, u32)> = None;
    let mut i: usize = 0;
    while i < cands.len()
        invariant
            i <= cands.len(),
            best == best_candidate(cands@.take(i as int), ssid@),
        decreases cands.len() - i,
    {
        proof {
            assert(cands@.take(i + 1).drop_last() == cands@.take(i as int));
            assert(cands@.take(i + 1).last() == cands@[i as int]);
        }
        let c = &cands[i];
        let name = ssid_to_string(c.ssid_len, &c.ssid_bytes);
        if eq_str(name.as_str(), ssid) && c.connectable {
            let me = (c.signal, c.security_enabled, c.auth_alg, c.cipher_alg);
            best = match best {
                None => Some(me),
                Some(b) => if (c.security_enabled && !b.1) || (c.security_enabled == b.1
                    && c.signal > b.0) {
                    Some(me)
                } else {
                    best
                },
            };
        }
        i = i + 1;
    }
    assert(cands@.take(cands.len() as int) == cands@);
    match best {
        Some(b) => {
            if !b.1 {
                let a = chars_of("open");
                let e = chars_of("none");
                Ok((string_of(a.as_slice()), string_of(e.as_slice())))
            } else {
                let a = chars_of(auth_alg_to_profile_auth(b.2));
                let e = chars_of(cipher_alg_to_profile_enc(b.3));
                Ok((string_of(a.as_slice()), string_of(e.as_slice())))
            }
        },
        None => {
            let mut m = chars_of("Could not infer auth/encryption for ssid='");
            push_str_chars(&mut m, ssid);
            push_str_chars(&mut m, "' from available network list");
            Err(string_of(m.as_slice()))
        },
    }
}

// ---------------------------------------------------------------------------
// Policy for a new profile
// ---------------------------------------------------------------------------
/// Open networks pass; 802.1X ones are left to the system settings; other
/// secured ones need a password.
pub open spec fn spec_connect_policy(authentication: Seq<char>, password: Option<Seq<char>>) -> Result<
    (),
    Seq<char>,
> {
    if eq_ignore_case(authentication, "open"@) {
        Ok(())
    } else if spec_is_enterprise_auth(authentication) {
        Err("enterprise networks must be connected from Windows Wi-Fi settings"@)
    } else if given(password) is None {
        Err("password is required for secured networks (authorized=false)"@)
    } else {
        Ok(())
    }
}

pub fn check_connect_policy(authentication: &str, password: Option<&str>) -> (r: Result<(), String>)
    ensures
        match spec_connect_policy(authentication@, opt_text(password)) {
            Ok(()) => r is Ok,
            Err(m) => r matches Err(e) && e@ == m,
        },
{
    proof {
        reveal_strlit("open");
    }
    if eq_ignore_ascii_case(authentication, "open") {
        Ok(())
    } else if is_enterprise_auth(authentication) {
        let m = chars_of("enterprise networks must be connected from Windows Wi-Fi settings");
        Err(string_of(m.as_slice()))
    } else if given_exec(password).is_none() {
        let m = chars_of("password is required for secured networks (authorized=false)");
        Err(string_of(m.as_slice()))
    } else {
        Ok(())
    }
}

// ---------------------------------------------------------------------------
// Undoing a failed connection
// ---------------------------------------------------------------------------
/// `ERROR_NOT_FOUND`: no profile of that name.
pub const ERROR_NOT_FOUND: u32 = 1168;

/// What a failed connection undoes in the profile store.
#[derive(Clone, Debug)]
pub enum ProfileRollback {
    /// Put the profile that was overwritten back.
    Restore(String),
    /// Delete the profile that was created.
    DeleteCreated,
    /// Nothing to undo.
    Nothing,
}

/// The rollback prepared from reading the profile before it is written:
/// its XML when it exists, deletion when it did not (`ERROR_NOT_FOUND`),
/// and an error for any other failure.
pub open spec fn spec_rollback(profile_name: Seq<char>, read: Result<Option<Seq<char>>, u32>) -> Result<
    Option<Option<Seq<char>>>,
    Seq<char>,
> {
    match read {
        Ok(Some(xml)) => Ok(Some(Some(xml))),
        Ok(None) => Ok(None),
        Err(code) => if code == ERROR_NOT_FOUND {
            Ok(Some(None))
        } else {
            Err("WlanGetProfile failed while preparing rollback for profile='"@ + profile_name
                + "': "@ + radix_digits(code as nat, 10, false))
        },
    }
}

pub open spec fn rollback_view(r: ProfileRollback) -> Option<Option<Seq<char>>> {
    match r {
        ProfileRollback::Restore(x) => Some(Some(x@)),
        ProfileRollback::DeleteCreated => Some(None),
        ProfileRollback::Nothing => None,
    }
}

pub open spec fn read_view(read: Result<Option<String>, u32>) -> Result<Option<Seq<char>>, u32> {
    match read {
        Ok(Some(x)) => Ok(Some(x@)),
        Ok(None) => Ok(None),
        Err(c) => Err(c),
    }
}

pub fn prepare_profile_rollback(profile_name: &str, read: Result<Option<String>, u32>) -> (r: Result<
    ProfileRollback,
    String,
>)
    ensures
        match spec_rollback(profile_name@, read_view(read)) {
            Ok(plan) => r matches Ok(p) && rollback_view(p) == plan,
            Err(m) => r matches Err(e) && e@ == m,
        },
{
    match read {
        Ok(Some(xml)) => Ok(ProfileRollback::Restore(xml)),
        Ok(None) => Ok(ProfileRollback::Nothing),
        Err(code) => {
            if code == ERROR_NOT_FOUND {
                Ok(ProfileRollback::DeleteCreated)
            } else {
                let mut m = chars_of("WlanGetProfile failed while preparing rollback for profile='");
                push_str_chars(&mut m, profile_name);
                push_str_chars(&mut m, "': ");
                let d = decimal(code as u64);
                push_all(&mut m, d.as_slice());
                Err(string_of(m.as_slice()))
            }
        },
    }
}

/// What to undo when the connection fails: only a request that wrote a
/// profile (not an authorized one) undoes anything.
pub fn rollback_on_failure(authorized: bool, plan: ProfileRollback) -> (r: ProfileRollback)
    ensures
        rollback_view(r) == if authorized {
            None
        } else {
            rollback_view(plan)
        },
{
    if authorized {
        ProfileRollback::Nothing
    } else {
        plan
    }
}

/// The error of a failed `WlanConnect` call.
pub fn connect_failure_message(code: u32) -> (r: String)
    ensures
        r@ == "WlanConnect failed: "@ + radix_digits(code as nat, 10, false),
{
    let mut m = chars_of("WlanConnect failed: ");
    let d = decimal(code as u64);
    push_all(&mut m, d.as_slice());
    string_of(m.as_slice())
}

/// The error of a failed `WlanGetProfile` call for an authorized request.
pub fn get_profile_failure_message(profile_name: &str, code: u32) -> (r: String)
    ensures
        r@ == "WlanGetProfile failed for profile='"@ + profile_name@ + "': "@ + radix_digits(
            code as nat,
            10,
            false,
        ),
{
    let mut m = chars_of("WlanGetProfile failed for profile='");
    push_str_chars(&mut m, profile_name);
    push_str_chars(&mut m, "': ");
    let d = decimal(code as u64);
    push_all(&mut m, d.as_slice());
    string_of(m.as_slice())
}

} // verus!
