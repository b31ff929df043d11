//! Smaller WLAN decisions: radio state, profile names, forgetting a profile,
//! how long to wait for a scan, and the captive-portal check.
use vstd::prelude::*;

use crate::network::connect::ERROR_NOT_FOUND;
use crate::network::wifi::{ssid_text, ssid_to_string, AvailableNetwork};
use crate::text::{
    chars_of, decimal, eq_chars, push_all, push_str_chars, radix_digits, string_of, trim,
    trim_chars,
};

verus! {

// ---------------------------------------------------------------------------
// Radio state
// ---------------------------------------------------------------------------
pub const DOT11_RADIO_STATE_ON: u32 = 1;

pub const DOT11_RADIO_STATE_OFF: u32 = 2;

/// The radio state of one PHY: software and hardware switches.
#[derive(Clone, Copy, Debug, PartialEq, Eq, Structural)]
pub struct PhyRadioState {
    pub software: u32,
    pub hardware: u32,
}

/// Wi-Fi is on when some PHY of some interface that answered has both
/// switches on.
pub open spec fn spec_wlan_enabled(interfaces: Seq<Seq<PhyRadioState>>) -> bool {
    exists|i: int, j: int|
        0 <= i < interfaces.len() && 0 <= j < interfaces[i].len() && #[trigger] interfaces[i][j]
            == (PhyRadioState { software: DOT11_RADIO_STATE_ON, hardware: DOT11_RADIO_STATE_ON })
}

pub open spec fn phy_views(v: Seq<Vec<PhyRadioState>>) -> Seq<Seq<PhyRadioState>> {
    v.map_values(|p: Vec<PhyRadioState>| p@)
}

pub fn wlan_enabled_from_radio_states(interfaces: &Vec<Vec<PhyRadioState>>) -> (r: bool)
    ensures
        r == spec_wlan_enabled(phy_views(interfaces@)),
{
    let ghost pv = phy_views(interfaces@);
    let on = PhyRadioState { software: DOT11_RADIO_STATE_ON, hardware: DOT11_RADIO_STATE_ON };
    let mut i: usize = 0;
    while i < interfaces.len()
        invariant
            i <= interfaces.len(),
            pv == phy_views(interfaces@),
            on == (PhyRadioState { software: DOT11_RADIO_STATE_ON, hardware: DOT11_RADIO_STATE_ON }),
            forall|a: int, b: int| 0 <= a < i && 0 <= b < pv[a].len() ==> #[trigger] pv[a][b] != on,
        decreases interfaces.len() - i,
    {
        let phys = &interfaces[i];
        proof {
            assert(pv[i as int] == phys@);
        }
        let mut j: usize = 0;
        while j < phys.len()
            invariant
                j <= phys.len(),
                i < interfaces.len(),
                pv == phy_views(interfaces@),
                pv[i as int] == phys@,
                on == (PhyRadioState { software: DOT11_RADIO_STATE_ON, hardware: DOT11_RADIO_STATE_ON }),
                forall|b: int| 0 <= b < j ==> #[trigger] pv[i as int][b] != on,
            decreases phys.len() - j,
        {
            if phys[j].hardware == DOT11_RADIO_STATE_ON && phys[j].software == DOT11_RADIO_STATE_ON {
                proof {
                    assert(pv[i as int][j as int] == on);
                }
                return true;
            }
            j = j + 1;
        }
        i = i + 1;
    }
    false
}

/// One step of switching the radio: a failed query of an interface, or the
/// result code of setting one PHY.
#[derive(Clone, Copy, Debug, PartialEq, Eq, Structural)]
pub enum RadioAttempt {
    QueryFailed(u32),
    Applied(u32),
}

pub open spec fn attempt_error(a: RadioAttempt) -> Option<u32> {
    match a {
        RadioAttempt::QueryFailed(c) => Some(c),
        RadioAttempt::Applied(c) => if c == 0 {
            None
        } else {
            Some(c)
        },
    }
}

/// The last error code among the attempts.
pub open spec fn last_error(attempts: Seq<RadioAttempt>) -> Option<u32>
    decreases attempts.len(),
{
    if attempts.len() == 0 {
        None
    } else {
        match attempt_error(attempts.last()) {
            Some(c) => Some(c),
            None => last_error(attempts.drop_last()),
        }
    }
}

/// `Some(<code>)` or `None`, as the error message prints the last error.
pub open spec fn debug_code(c: Option<u32>) -> Seq<char> {
    match c {
        Some(n) => "Some("@ + radix_digits(n as nat, 10, false) + ")"@,
        None => "None"@,
    }
}

/// Switching succeeded when some PHY took the new state; else the error
/// names the last failure.
pub open spec fn spec_radio_outcome(attempts: Seq<RadioAttempt>) -> Result<(), Seq<char>> {
    if attempts.contains(RadioAttempt::Applied(0)) {
        Ok(())
    } else {
        Err("WlanSetInterface(wlan_intf_opcode_radio_state) failed: "@ + debug_code(
            last_error(attempts),
        ))
    }
}

pub fn radio_switch_outcome(attempts: &[RadioAttempt]) -> (r: Result<(), String>)
    ensures
        match spec_radio_outcome(attempts@) {
            Ok(()) => r is Ok,
            Err(m) => r matches Err(e) && e@ == m,
        },
{
    let mut any_success = false;
    let mut last: Option<u32> = None;
    let mut i: usize = 0;
    while i < attempts.len()
        invariant
            i <= attempts.len(),
            any_success == attempts@.take(i as int).contains(RadioAttempt::Applied(0)),
            last == last_error(attempts@.take(i as int)),
        decreases attempts.len() - i,
    {
        proof {
            assert(attempts@.take(i + 1).drop_last() == attempts@.take(i as int));
            assert(attempts@.take(i + 1).last() == attempts@[i as int]);
            assert(attempts@.take(i + 1) =~= attempts@.take(i as int).push(attempts@[i as int]));
        }
        match attempts[i] {
            RadioAttempt::QueryFailed(c) => {
                last = Some(c);
            },
            RadioAttempt::Applied(c) => {
                if c == 0 {
                    any_success = true;
                } else {
                    last = Some(c);
                }
            },
        }
        i = i + 1;
    }
    assert(attempts@.take(attempts.len() as int) == attempts@);
    if any_success {
        Ok(())
    } else {
        let mut m = chars_of("WlanSetInterface(wlan_intf_opcode_radio_state) failed: ");
        match last {
            Some(n) => {
                push_str_chars(&mut m, "Some(");
                let d = decimal(n as u64);
                push_all(&mut m, d.as_slice());
                push_str_chars(&mut m, ")");
            },
            None => {
                push_str_chars(&mut m, "None");
            },
        }
        Err(string_of(m.as_slice()))
    }
}

/// The radio state asked of each PHY.
pub fn desired_radio_state(enabled: bool) -> (r: u32)
    ensures
        r == if enabled {
            DOT11_RADIO_STATE_ON
        } else {
            DOT11_RADIO_STATE_OFF
        },
{
    if enabled {
        DOT11_RADIO_STATE_ON
    } else {
        DOT11_RADIO_STATE_OFF
    }
}

// ---------------------------------------------------------------------------
// Profiles
// ---------------------------------------------------------------------------
/// A profile name, trimmed; a blank one is refused.
pub open spec fn spec_profile_arg(name: Seq<char>) -> Result<Seq<char>, Seq<char>> {
    if trim(name).len() == 0 {
        Err("profileName is empty"@)
    } else {
        Ok(trim(name))
    }
}

pub fn trimmed_profile_name(name: &str) -> (r: Result<String, String>)
    ensures
        match spec_profile_arg(name@) {
            Ok(n) => r matches Ok(v) && v@ == n,
            Err(m) => r matches Err(e) && e@ == m,
        },
{
    let c = chars_of(name);
    let t = trim_chars(c.as_slice());
    if t.len() == 0 {
        let m = chars_of("profileName is empty");
        Err(string_of(m.as_slice()))
    } else {
        Ok(string_of(t.as_slice()))
    }
}

/// Forgetting a profile that does not exist succeeds; other failures of
/// the deletion are errors.
pub open spec fn spec_forget_outcome(profile_name: Seq<char>, code: u32) -> Result<(), Seq<char>> {
    if code == ERROR_NOT_FOUND || code == 0 {
        Ok(())
    } else {
        Err("WlanDeleteProfile failed for profile='"@ + profile_name + "': "@ + radix_digits(
            code as nat,
            10,
            false,
        ))
    }
}

pub fn forget_profile_outcome(profile_name: &str, code: u32) -> (r: Result<(), String>)
    ensures
        match spec_forget_outcome(profile_name@, code) {
            Ok(()) => r is Ok,
            Err(m) => r matches Err(e) && e@ == m,
        },
{
    if code == ERROR_NOT_FOUND || code == 0 {
        return Ok(());
    }
    let mut m = chars_of("WlanDeleteProfile failed for profile='");
    push_str_chars(&mut m, profile_name);
    push_str_chars(&mut m, "': ");
    let d = decimal(code as u64);
    push_all(&mut m, d.as_slice());
    Err(string_of(m.as_slice()))
}

/// The error of a refused profile write, with the reason code and its text.
pub fn set_profile_failure_message(code: u32, reason: u32, reason_text: &str) -> (r: String)
    ensures
        r@ == "WlanSetProfile failed: "@ + radix_digits(code as nat, 10, false) + ", reason="@
            + radix_digits(reason as nat, 10, false) + " ("@ + reason_text@ + ")"@,
{
    let mut m = chars_of("WlanSetProfile failed: ");
    let d = decimal(code as u64);
    push_all(&mut m, d.as_slice());
    push_str_chars(&mut m, ", reason=");
    let r = decimal(reason as u64);
    push_all(&mut m, r.as_slice());
    push_str_chars(&mut m, " (");
    push_str_chars(&mut m, reason_text);
    push_str_chars(&mut m, ")");
    string_of(m.as_slice())
}

// ---------------------------------------------------------------------------
// Waiting for a scan
// ---------------------------------------------------------------------------
/// The distinct non-empty SSIDs of a list, in order of first appearance.
pub open spec fn distinct_ssids(avail: Seq<AvailableNetwork>) -> Seq<Seq<char>>
    decreases avail.len(),
{
    if avail.len() == 0 {
        seq![]
    } else {
        let before = distinct_ssids(avail.drop_last());
        let s = ssid_text(avail.last().ssid_len, avail.last().ssid_bytes@);
        if s.len() == 0 || before.contains(s) {
            before
        } else {
            before.push(s)
        }
    }
}

/// A list is worth (distinct SSIDs, entries).
pub open spec fn spec_list_score(avail: Seq<AvailableNetwork>) -> (nat, nat) {
    (distinct_ssids(avail).len(), avail.len())
}

pub fn available_list_score(avail: &[AvailableNetwork]) -> (r: (usize, usize))
    ensures
        r.0 == spec_list_score(avail@).0,
        r.1 == spec_list_score(avail@).1,
{
    let mut seen: Vec<Vec<char>> = Vec::new();
    let mut i: usize = 0;
    while i < avail.len()
        invariant
            i <= avail.len(),
            crate::text::views(seen@) == distinct_ssids(avail@.take(i as int)),
            seen.len() <= i,
        decreases avail.len() - i,
    {
        proof {
            assert(avail@.take(i + 1).drop_last() == avail@.take(i as int));
            assert(avail@.take(i + 1).last() == avail@[i as int]);
        }
        let s = ssid_to_string(avail[i].ssid_len, &avail[i].ssid_bytes);
        let c = chars_of(s.as_str());
        if c.len() > 0 {
            let ghost sv = crate::text::views(seen@);
            let mut found = false;
            let mut j: usize = 0;
            while j < seen.len()
                invariant
                    j <= seen.len(),
                    sv == crate::text::views(seen@),
                    found == exists|k: int| 0 <= k < j && sv[k] == c@,
                decreases seen.len() - j,
            {
                proof {
                    assert(sv[j as int] == seen@[j as int]@);
                }
                if eq_chars(seen[j].as_slice(), c.as_slice()) {
                    found = true;
                }
                j = j + 1;
            }
            proof {
                if found {
                    let k = choose|k: int| 0 <= k < seen.len() && sv[k] == c@;
                    assert(sv.contains(c@));
                } else {
                    assert(!sv.contains(c@)) by {
                        if sv.contains(c@) {
                            let k = choose|k: int| 0 <= k < sv.len() && sv[k] == c@;
                            assert(0 <= k < seen.len());
                        }
                    }
                }
            }
            if !found {
                let ghost before = crate::text::views(seen@);
                seen.push(c);
                proof {
                    assert(crate::text::views(seen@) =~= before.push(s@));
                }
            }
        }
        i = i + 1;
    }
    assert(avail@.take(avail.len() as int) == avail@);
    (seen.len(), avail.len())
}

/// How many times the list is read after a scan: 5 when a scan started,
/// else once.
pub fn scan_poll_attempts(scan_started: bool) -> (r: usize)
    ensures
        r == if scan_started {
            5usize
        } else {
            1usize
        },
{
    if scan_started {
        5
    } else {
        1
    }
}

/// Polling state: the best score kept and how many reads in a row did not
/// improve on it.
#[derive(Clone, Copy, Debug)]
pub struct ScanPoll {
    pub scan_started: bool,
    pub best: (usize, usize),
    pub stable_rounds: usize,
}

/// A read improves on the best when its score is larger, SSIDs first.
pub open spec fn score_improves(current: (usize, usize), best: (usize, usize)) -> bool {
    current.0 > best.0 || (current.0 == best.0 && current.1 > best.1)
}

impl ScanPoll {
    pub fn new(scan_started: bool) -> (r: Self)
        ensures
            r == (ScanPoll { scan_started, best: (0, 0), stable_rounds: 0 }),
    {
        ScanPoll { scan_started, best: (0, 0), stable_rounds: 0 }
    }

    /// Takes in the score of a read list: whether it replaces the kept one,
    /// and whether polling stops (a scan started, at least 3 SSIDs, and a
    /// read that did not improve).
    pub fn observe(&mut self, score: (usize, usize)) -> (r: (bool, bool))
        requires
            old(self).stable_rounds < usize::MAX,
        ensures
            r.0 == score_improves(score, old(self).best),
            final(self).scan_started == old(self).scan_started,
            final(self).best == if r.0 {
                score
            } else {
                old(self).best
            },
            final(self).stable_rounds == if r.0 {
                0
            } else {
                old(self).stable_rounds + 1
            },
            r.1 == (final(self).scan_started && final(self).best.0 >= 3
                && final(self).stable_rounds >= 1),
    {
        let improved = score.0 > self.best.0 || (score.0 == self.best.0 && score.1 > self.best.1);
        if improved {
            self.best = score;
            self.stable_rounds = 0;
        } else {
            self.stable_rounds = self.stable_rounds + 1;
        }
        let stop = self.scan_started && self.best.0 >= 3 && self.stable_rounds >= 1;
        (improved, stop)
    }
}

// ---------------------------------------------------------------------------
// Captive portal
// ---------------------------------------------------------------------------
/// Whether the connectivity test shows a captive portal: a redirect does;
/// 204, another failure status or an unreadable body does not; a body of
/// exactly `Microsoft Connect Test` (trimmed) does not; any other
/// successful body does.
pub open spec fn spec_captive(status: u16, body: Option<Seq<char>>) -> bool {
    if 300 <= status <= 399 {
        true
    } else if status == 204 {
        false
    } else if !(200 <= status <= 299) {
        false
    } else {
        match body {
            None => false,
            Some(b) => trim(b) != "Microsoft Connect Test"@,
        }
    }
}

pub fn captive_portal_verdict(status: u16, body: Option<&str>) -> (r: bool)
    ensures
        r == spec_captive(
            status,
            match body {
                Some(b) => Some(b@),
                None => None,
            },
        ),
{
    if 300 <= status && status <= 399 {
        return true;
    }
    if status == 204 {
        return false;
    }
    if !(200 <= status && status <= 299) {
        return false;
    }
    match body {
        None => false,
        Some(b) => {
            let c = chars_of(b);
            let t = trim_chars(c.as_slice());
            let expected = chars_of("Microsoft Connect Test");
            !eq_chars(t.as_slice(), expected.as_slice())
        },
    }
}

/// The Wi-Fi interface to use among those listed (by whether each is
/// connected): the first connected one, else the first; an error when
/// there is none.
pub fn preferred_interface_index(connected: &Vec<bool>) -> (r: Result<usize, String>)
    ensures
        connected@.len() == 0 ==> (r matches Err(e) && e@ == "No WLAN interface found"@),
        connected@.len() > 0 ==> (r matches Ok(k) && k < connected@.len() && (if exists|j: int|
            0 <= j < connected@.len() && #[trigger] connected@[j] {
            connected@[k as int] && forall|j: int| 0 <= j < k ==> !#[trigger] connected@[j]
        } else {
            k == 0
        })),
{
    if connected.len() == 0 {
        return Err(string_of(chars_of("No WLAN interface found").as_slice()));
    }
    let mut i: usize = 0;
    while i < connected.len()
        invariant
            i <= connected.len(),
            forall|j: int| 0 <= j < i ==> !#[trigger] connected@[j],
        decreases connected.len() - i,
    {
        if connected[i] {
            return Ok(i);
        }
        i = i + 1;
    }
    Ok(0)
}

} // verus!
