//! Input methods and keyboard layouts: identifiers as text, the installed
//! profiles, and the decisions of switching between them.
use vstd::prelude::*;

use crate::text::{chars_of, eq_ignore_ascii_case, eq_ignore_case, hex_padded, is_ascii_hex, pad_left, parse_unsigned, parse_unsigned_exec, push_all, push_str_chars, radix_digits, string_of, to_lowercase, to_uppercase, trim, trim_chars, unicode_lowercase, unicode_uppercase};
use crate::whitelist::{
    first_index, lemma_first_index_bounds, lemma_first_index_is, lemma_first_index_none,
};

verus! {

/// A text-services input profile.
#[derive(Debug, Clone)]
pub struct TsfProfile {
    pub clsid: String,
    pub langid: u16,
    pub guid_profile: String,
    pub name: String,
    pub description: String,
}

pub struct ProfileView {
    pub clsid: Seq<char>,
    pub langid: u16,
    pub guid_profile: Seq<char>,
    pub name: Seq<char>,
    pub description: Seq<char>,
}

impl View for TsfProfile {
    type V = ProfileView;

    open spec fn view(&self) -> ProfileView {
        ProfileView {
            clsid: self.clsid@,
            langid: self.langid,
            guid_profile: self.guid_profile@,
            name: self.name@,
            description: self.description@,
        }
    }
}

pub open spec fn profile_views(v: Seq<TsfProfile>) -> Seq<ProfileView> {
    v.map_values(|p: TsfProfile| p@)
}

fn copy_text(s: &String) -> (r: String)
    ensures
        r@ == s@,
{
    let c = chars_of(s.as_str());
    string_of(c.as_slice())
}

pub fn copy_profile(p: &TsfProfile) -> (r: TsfProfile)
    ensures
        r@ == p@,
{
    TsfProfile {
        clsid: copy_text(&p.clsid),
        langid: p.langid,
        guid_profile: copy_text(&p.guid_profile),
        name: copy_text(&p.name),
        description: copy_text(&p.description),
    }
}

/// An installed keyboard layout.
#[derive(Debug, Clone)]
pub struct KeyboardLayoutProfile {
    pub hkl: String,
    pub klid: String,
    pub langid: u16,
    pub description: String,
    pub active: bool,
}

pub struct ActivateKeyboardLayoutArgs {
    pub klid: String,
}

pub struct ActivateInputArgs {
    pub guid_profile: String,
}

pub struct SetSimpleModeArgs {
    pub enabled: bool,
}

/// The input method's mode as the interface asks for it.
pub struct ImeModeInfo {
    pub mode: String,
    pub open: bool,
    pub conversion: u32,
}

/// The mode is always reported as English, closed, without conversion.
pub fn get_ime_mode() -> (r: ImeModeInfo)
    ensures
        r.mode@ == "eng"@,
        !r.open,
        r.conversion == 0,
{
    let m = chars_of("eng");
    ImeModeInfo { mode: string_of(m.as_slice()), open: false, conversion: 0 }
}

/// Simple mode has no effect.
pub fn set_simple_mode(enabled: bool) {
}

// ---------------------------------------------------------------------------
// Identifiers as text
// ---------------------------------------------------------------------------
/// A GUID by its fields.
#[derive(Debug, Clone, Copy)]
pub struct Guid {
    pub data1: u32,
    pub data2: u16,
    pub data3: u16,
    pub data4: [u8; 8],
}

pub open spec fn hex_field(n: nat, width: nat) -> Seq<char> {
    pad_left(radix_digits(n, 16, false), width, '0')
}

/// `{xxxxxxxx-xxxx-xxxx-xxxx-xxxxxxxxxxxx}` in lowercase hex.
pub open spec fn spec_guid_string(g: Guid) -> Seq<char> {
    seq!['{'] + hex_field(g.data1 as nat, 8) + seq!['-'] + hex_field(g.data2 as nat, 4) + seq!['-']
        + hex_field(g.data3 as nat, 4) + seq!['-'] + hex_field(g.data4[0] as nat, 2) + hex_field(
        g.data4[1] as nat,
        2,
    ) + seq!['-'] + hex_field(g.data4[2] as nat, 2) + hex_field(g.data4[3] as nat, 2) + hex_field(
        g.data4[4] as nat,
        2,
    ) + hex_field(g.data4[5] as nat, 2) + hex_field(g.data4[6] as nat, 2) + hex_field(
        g.data4[7] as nat,
        2,
    ) + seq!['}']
}

fn push_hex(out: &mut Vec<char>, n: u64, width: usize)
    ensures
        final(out)@ == old(out)@ + hex_field(n as nat, width as nat),
{
    let h = hex_padded(n, width, false);
    push_all(out, h.as_slice());
}

pub fn guid_to_string(g: &Guid) -> (r: String)
    ensures
        r@ == spec_guid_string(*g),
{
    let mut out: Vec<char> = Vec::new();
    out.push('{');
    push_hex(&mut out, g.data1 as u64, 8);
    out.push('-');
    push_hex(&mut out, g.data2 as u64, 4);
    out.push('-');
    push_hex(&mut out, g.data3 as u64, 4);
    out.push('-');
    push_hex(&mut out, g.data4[0] as u64, 2);
    push_hex(&mut out, g.data4[1] as u64, 2);
    out.push('-');
    push_hex(&mut out, g.data4[2] as u64, 2);
    push_hex(&mut out, g.data4[3] as u64, 2);
    push_hex(&mut out, g.data4[4] as u64, 2);
    push_hex(&mut out, g.data4[5] as u64, 2);
    push_hex(&mut out, g.data4[6] as u64, 2);
    push_hex(&mut out, g.data4[7] as u64, 2);
    out.push('}');
    assert(out@ =~= spec_guid_string(*g));
    string_of(out.as_slice())
}

/// A keyboard-layout handle as an unsigned number (two's complement).
pub fn hkl_to_u64(hkl: isize) -> (r: u64)
    ensures
        r == hkl as u64,
{
    hkl as u64
}

/// `0x` and sixteen upper-case hex digits.
pub fn format_hkl(hkl: isize) -> (r: String)
    ensures
        r@ == "0x"@ + pad_left(radix_digits((hkl as u64) as nat, 16, true), 16, '0'),
{
    let mut out = chars_of("0x");
    let h = hex_padded(hkl_to_u64(hkl), 16, true);
    push_all(&mut out, h.as_slice());
    string_of(out.as_slice())
}

/// The language of a layout handle: its low sixteen bits.
pub fn langid_from_hkl(hkl: isize) -> (r: u16)
    ensures
        r == ((hkl as u64) & 0xFFFF) as u16,
{
    (hkl_to_u64(hkl) & 0xFFFF) as u16
}

/// The primary language: the low ten bits.
pub fn primary_langid(langid: u16) -> (r: u16)
    ensures
        r == langid & 0x03ff,
{
    langid & 0x03ff
}

/// The layout id of a language's default layout: `0000` and four upper-case
/// hex digits.
pub fn keyboard_klid_from_langid(langid: u16) -> (r: String)
    ensures
        r@ == "0000"@ + pad_left(radix_digits(langid as nat, 16, true), 4, '0'),
{
    let mut out = chars_of("0000");
    let h = hex_padded(langid as u64, 4, true);
    push_all(&mut out, h.as_slice());
    string_of(out.as_slice())
}

/// English layouts: primary language 9.
pub fn is_english_keyboard_layout(langid: u16) -> (r: bool)
    ensures
        r == (langid & 0x03ff == 9),
{
    primary_langid(langid) == 0x09
}

pub open spec fn flags_or(flags: Seq<u32>) -> u32
    decreases flags.len(),
{
    if flags.len() == 0 {
        0
    } else {
        flags_or(flags.drop_last()) | flags.last()
    }
}

/// The union of layout-activation flags.
pub fn keyboard_layout_flags(flags: &[u32]) -> (r: u32)
    ensures
        r == flags_or(flags@),
{
    let mut acc: u32 = 0;
    let mut i: usize = 0;
    while i < flags.len()
        invariant
            i <= flags.len(),
            acc == flags_or(flags@.take(i as int)),
        decreases flags.len() - i,
    {
        proof {
            assert(flags@.take(i + 1).drop_last() == flags@.take(i as int));
            assert(flags@.take(i + 1).last() == flags@[i as int]);
        }
        acc = acc | flags[i];
        i = i + 1;
    }
    assert(flags@.take(flags.len() as int) == flags@);
    acc
}

/// A layout id in upper case, trimmed, when it is eight hex digits.
pub open spec fn spec_normalize_klid(klid: Seq<char>) -> Result<Seq<char>, Seq<char>> {
    let n = unicode_uppercase(trim(klid));
    if n.len() == 8 && forall|i: int| 0 <= i < 8 ==> is_ascii_hex(#[trigger] n[i]) {
        Ok(n)
    } else {
        Err("Invalid keyboard layout id: "@ + klid)
    }
}

pub fn normalize_klid(klid: &str) -> (r: Result<String, String>)
    ensures
        match spec_normalize_klid(klid@) {
            Ok(n) => r matches Ok(v) && v@ == n,
            Err(m) => r matches Err(e) && e@ == m,
        },
{
    let c = chars_of(klid);
    let t = trim_chars(c.as_slice());
    let ts = string_of(t.as_slice());
    let up = to_uppercase(ts.as_str());
    let u = chars_of(up.as_str());
    let mut ok = u.len() == 8;
    if ok {
        let mut i: usize = 0;
        while i < 8
            invariant
                i <= 8,
                u.len() == 8,
                ok == forall|j: int| 0 <= j < i ==> is_ascii_hex(#[trigger] u@[j]),
            decreases 8 - i,
        {
            let ch = u[i];
            let hex = ('0' <= ch && ch <= '9') || ('a' <= ch && ch <= 'f') || ('A' <= ch && ch <= 'F');
            ok = ok && hex;
            i = i + 1;
        }
    }
    if ok {
        Ok(up)
    } else {
        let mut m = chars_of("Invalid keyboard layout id: ");
        push_str_chars(&mut m, klid);
        Err(string_of(m.as_slice()))
    }
}

/// UTF-16 code units of a character.
pub open spec fn utf16_of(c: char) -> Seq<u16> {
    let v = c as u32;
    if v < 0x10000 {
        seq![v as u16]
    } else {
        seq![(0xD800 + (v - 0x10000) / 0x400) as u16, (0xDC00 + (v - 0x10000) % 0x400) as u16]
    }
}

pub open spec fn utf16_encode(s: Seq<char>) -> Seq<u16>
    decreases s.len(),
{
    if s.len() == 0 {
        seq![]
    } else {
        utf16_encode(s.drop_last()) + utf16_of(s.last())
    }
}

/// The UTF-16 code units of a string (`str::encode_utf16`).
pub fn utf16_units(value: &str) -> (r: Vec<u16>)
    ensures
        r@ == utf16_encode(value@),
{
    let c = chars_of(value);
    let mut out: Vec<u16> = Vec::new();
    let mut i: usize = 0;
    while i < c.len()
        invariant
            i <= c.len(),
            out@ == utf16_encode(c@.take(i as int)),
        decreases c.len() - i,
    {
        proof {
            assert(c@.take(i + 1).drop_last() == c@.take(i as int));
            assert(c@.take(i + 1).last() == c@[i as int]);
        }
        let v = c[i] as u32;
        let ghost before = out@;
        if v < 0x10000 {
            out.push(v as u16);
        } else {
            let w = v - 0x10000;
            out.push((0xD800 + w / 0x400) as u16);
            out.push((0xDC00 + w % 0x400) as u16);
        }
        proof {
            assert(out@ =~= before + utf16_of(c@[i as int]));
        }
        i = i + 1;
    }
    assert(c@.take(c.len() as int) == c@);
    out
}

/// The UTF-16 text of a string with a terminating zero.
pub fn pcwstr_from_str(value: &str) -> (r: Vec<u16>)
    ensures
        r@ == utf16_encode(value@).push(0),
{
    let mut out = utf16_units(value);
    out.push(0);
    out
}

// ---------------------------------------------------------------------------
// Installed profiles
// ---------------------------------------------------------------------------
/// The profile that the text services report as active: its language and
/// identifiers.
pub fn profile_matches_active(profile: &TsfProfile, langid: u16, clsid: &Guid, guid_profile: &Guid) -> (r: bool)
    ensures
        r == (profile.langid == langid && eq_ignore_case(profile.clsid@, spec_guid_string(*clsid))
            && eq_ignore_case(profile.guid_profile@, spec_guid_string(*guid_profile))),
{
    let c = guid_to_string(clsid);
    let g = guid_to_string(guid_profile);
    profile.langid == langid && eq_ignore_ascii_case(profile.clsid.as_str(), c.as_str())
        && eq_ignore_ascii_case(profile.guid_profile.as_str(), g.as_str())
}

pub open spec fn same_guid(guid: Seq<char>) -> spec_fn(ProfileView) -> bool {
    |p: ProfileView| eq_ignore_case(p.guid_profile, guid)
}

/// The position of the profile with that profile GUID (up to ASCII case).
pub fn active_profile_index(profiles: &Vec<TsfProfile>, guid_profile: &str) -> (r: Option<usize>)
    ensures
        match first_index(profile_views(profiles@), same_guid(guid_profile@)) {
            Some(k) => r == Some(k as usize) && 0 <= k < profiles.len(),
            None => r is None,
        },
{
    let ghost v = profile_views(profiles@);
    proof {
        lemma_first_index_bounds(v, same_guid(guid_profile@));
    }
    let mut i: usize = 0;
    while i < profiles.len()
        invariant
            i <= profiles.len(),
            v == profile_views(profiles@),
            forall|j: int| 0 <= j < i ==> !(#[trigger] same_guid(guid_profile@))(v[j]),
        decreases profiles.len() - i,
    {
        if eq_ignore_ascii_case(profiles[i].guid_profile.as_str(), guid_profile) {
            proof {
                lemma_first_index_is(v, same_guid(guid_profile@), i as int);
            }
            return Some(i);
        }
        i = i + 1;
    }
    proof {
        lemma_first_index_none(v, same_guid(guid_profile@));
    }
    None
}

/// The profiles without repeats: the first of each profile GUID in
/// (Unicode) lowercase is kept.
pub open spec fn dedup_profiles(v: Seq<ProfileView>) -> Seq<ProfileView>
    decreases v.len(),
{
    if v.len() == 0 {
        seq![]
    } else {
        let before = dedup_profiles(v.drop_last());
        let p = v.last();
        if exists|i: int| 0 <= i < v.len() - 1 && unicode_lowercase(#[trigger] v[i].guid_profile)
            == unicode_lowercase(p.guid_profile) {
            before
        } else {
            before.push(p)
        }
    }
}

pub fn dedup_input_profiles(list: &Vec<TsfProfile>) -> (r: Vec<TsfProfile>)
    ensures
        profile_views(r@) == dedup_profiles(profile_views(list@)),
{
    let ghost v = profile_views(list@);
    let mut seen: Vec<String> = Vec::new();
    let mut out: Vec<TsfProfile> = Vec::new();
    let mut i: usize = 0;
    while i < list.len()
        invariant
            i <= list.len(),
            v == profile_views(list@),
            profile_views(out@) == dedup_profiles(v.take(i as int)),
            seen.len() == i,
            forall|j: int| 0 <= j < i ==> (#[trigger] seen@[j])@ == unicode_lowercase(v[j].guid_profile),
        decreases list.len() - i,
    {
        proof {
            assert(v.take(i + 1).drop_last() == v.take(i as int));
            assert(v.take(i + 1).last() == v[i as int]);
            assert(v[i as int] == list@[i as int]@);
        }
        let key = to_lowercase(list[i].guid_profile.as_str());
        let mut found = false;
        let mut j: usize = 0;
        while j < seen.len()
            invariant
                j <= seen.len(),
                seen.len() == i,
                i < list.len(),
                v == profile_views(list@),
                key@ == unicode_lowercase(v[i as int].guid_profile),
                forall|k: int| 0 <= k < i ==> (#[trigger] seen@[k])@ == unicode_lowercase(v[k].guid_profile),
                found == exists|k: int| 0 <= k < j && unicode_lowercase(#[trigger] v[k].guid_profile)
                    == key@,
            decreases seen.len() - j,
        {
            if crate::text::eq_str(seen[j].as_str(), key.as_str()) {
                found = true;
            }
            j = j + 1;
        }
        proof {
            let t = v.take(i + 1);
            if found {
                let k = choose|k: int| 0 <= k < i && unicode_lowercase(#[trigger] v[k].guid_profile)
                    == key@;
                assert(t[k] == v[k]);
            } else {
                assert(!exists|k: int| 0 <= k < t.len() - 1 && unicode_lowercase(#[trigger] t[k].guid_profile)
                    == unicode_lowercase(t.last().guid_profile)) by {
                    if exists|k: int| 0 <= k < t.len() - 1 && unicode_lowercase(#[trigger] t[k].guid_profile)
                        == unicode_lowercase(t.last().guid_profile) {
                        let k = choose|k: int| 0 <= k < t.len() - 1 && unicode_lowercase(#[trigger] t[k].guid_profile)
                            == unicode_lowercase(t.last().guid_profile);
                        assert(t[k] == v[k]);
                    }
                }
            }
        }
        if !found {
            let p = copy_profile(&list[i]);
            let ghost before = profile_views(out@);
            out.push(p);
            proof {
                assert(profile_views(out@) =~= before.push(v[i as int]));
            }
        }
        seen.push(key);
        i = i + 1;
    }
    assert(v.take(list.len() as int) == v);
    out
}

/// Where a profile GUID was looked up.
pub enum TargetLookup {
    /// Found among the known profiles.
    Found(TsfProfile),
    /// Not known: the profiles are to be enumerated again and searched.
    Unknown(String),
}

/// The profile to switch to, by its profile GUID (trimmed, up to ASCII
/// case); a blank GUID is refused.
pub fn resolve_target_profile_by_guid(known: &Vec<TsfProfile>, target: &str) -> (r: Result<TargetLookup, String>)
    ensures
        trim(target@).len() == 0 ==> (r matches Err(e) && e@ == "Input method target guid_profile is empty"@),
        trim(target@).len() > 0 ==> match first_index(profile_views(known@), same_guid(trim(target@))) {
            Some(k) => r matches Ok(TargetLookup::Found(p)) && p@ == profile_views(known@)[k],
            None => r matches Ok(TargetLookup::Unknown(t)) && t@ == trim(target@),
        },
{
    let c = chars_of(target);
    let t = trim_chars(c.as_slice());
    if t.len() == 0 {
        let m = chars_of("Input method target guid_profile is empty");
        return Err(string_of(m.as_slice()));
    }
    let ts = string_of(t.as_slice());
    match active_profile_index(known, ts.as_str()) {
        Some(k) => {
            proof {
                assert(profile_views(known@)[k as int] == known@[k as int]@);
            }
            Ok(TargetLookup::Found(copy_profile(&known[k])))
        },
        None => Ok(TargetLookup::Unknown(ts)),
    }
}

/// The error when a GUID is not found after enumerating again.
pub fn target_not_found(target: &str) -> (r: String)
    ensures
        r@ == "Input method guid_profile not found: "@ + target@,
{
    let mut m = chars_of("Input method guid_profile not found: ");
    push_str_chars(&mut m, target);
    string_of(m.as_slice())
}

/// The second lookup of a GUID that was not known: it is searched in the
/// profiles enumerated again, and is an error when it is not there either.
pub fn resolve_in_enumeration(enumerated: &Vec<TsfProfile>, target: &str) -> (r: Result<TsfProfile, String>)
    ensures
        match first_index(profile_views(enumerated@), same_guid(target@)) {
            Some(k) => r matches Ok(p) && p@ == profile_views(enumerated@)[k],
            None => r matches Err(e) && e@ == "Input method guid_profile not found: "@ + target@,
        },
{
    match active_profile_index(enumerated, target) {
        Some(k) => {
            proof {
                assert(profile_views(enumerated@)[k as int] == enumerated@[k as int]@);
            }
            Ok(copy_profile(&enumerated[k]))
        },
        None => Err(target_not_found(target)),
    }
}

/// How a profile switch is made: through the background service when it
/// runs, else by pressing the switching hotkey.
#[derive(Debug, Clone, Copy, PartialEq, Eq, Structural)]
pub enum ActivationRoute {
    ViaService,
    ByHotkey,
}

pub fn activation_route(service_running: bool) -> (r: ActivationRoute)
    ensures
        r == if service_running {
            ActivationRoute::ViaService
        } else {
            ActivationRoute::ByHotkey
        },
{
    if service_running {
        ActivationRoute::ViaService
    } else {
        ActivationRoute::ByHotkey
    }
}

// ---------------------------------------------------------------------------
// Switching
// ---------------------------------------------------------------------------
/// The hotkey is pressed at most six times, and at most once more than there
/// are profiles.
pub fn attempt_limit(profile_count: usize) -> (r: usize)
    ensures
        r == if profile_count >= 5 {
            6usize
        } else {
            (profile_count + 1) as usize
        },
        1 <= r <= 6,
{
    let plus = profile_count.saturating_add(1);
    let m = if plus < 6 {
        plus
    } else {
        6
    };
    if m < 1 {
        1
    } else {
        m
    }
}

/// The layout is switched first when the target's primary language differs
/// from the active one.
pub fn needs_layout_switch(active_langid: u16, target_langid: u16) -> (r: bool)
    ensures
        r == ((active_langid & 0x03ff) != (target_langid & 0x03ff)),
{
    primary_langid(active_langid) != primary_langid(target_langid)
}

/// Delays (ms) after each hotkey press at which the active profile is read.
pub fn hotkey_probe_delays() -> (r: Vec<u64>)
    ensures
        r@ == seq![120u64, 220u64, 360u64],
{
    vec![120, 220, 360]
}

/// Whether a probed profile is the target (GUIDs up to ASCII case).
pub fn probe_reached(probed: Option<&TsfProfile>, target_guid: &str) -> (r: bool)
    ensures
        r == match probed {
            Some(p) => eq_ignore_case(p.guid_profile@, target_guid@),
            None => false,
        },
{
    match probed {
        Some(p) => eq_ignore_ascii_case(p.guid_profile.as_str(), target_guid),
        None => false,
    }
}

/// What the service's report of a new input-method index leads to.
#[derive(Debug, Clone, Copy, PartialEq, Eq, Structural)]
pub enum TsfChange {
    /// Nothing (negative index, a switch of ours in progress, or no change).
    Ignore,
    /// Report the known profile at the index.
    Report(usize),
    /// Enumerate the profiles again and report the one at the index, if any.
    Refresh(usize),
}

/// Takes in the index the service reports; the last index is updated when
/// it changed (and no switch of ours is in progress).
pub fn handle_tsf_change_from_service(last_index: &mut i32, index: i32, switching: bool, known_len: usize) -> (r: TsfChange)
    ensures
        (index < 0 || switching || index == *old(last_index)) ==> (r == TsfChange::Ignore
            && *final(last_index) == *old(last_index)),
        !(index < 0 || switching || index == *old(last_index)) ==> *final(last_index) == index && (
        if (index as int) < known_len {
            r == TsfChange::Report(index as usize)
        } else {
            r == TsfChange::Refresh(index as usize)
        }),
{
    if index < 0 || switching || index == *last_index {
        return TsfChange::Ignore;
    }
    *last_index = index;
    let i = index as usize;
    if i < known_len {
        TsfChange::Report(i)
    } else {
        TsfChange::Refresh(i)
    }
}

/// After a key release, a newly active index (from the text services) is
/// remembered and its profile reported.
pub fn keyboard_key_up(last_index: &mut i32, current: i32, known_len: usize) -> (r: Option<usize>)
    ensures
        (current >= 0 && current != *old(last_index)) ==> *final(last_index) == current && (if (current as int) < known_len {
            r == Some(current as usize)
        } else {
            r is None
        }),
        !(current >= 0 && current != *old(last_index)) ==> *final(last_index) == *old(last_index) && r is None,
{
    if current >= 0 && current != *last_index {
        *last_index = current;
        let i = current as usize;
        if i < known_len {
            return Some(i);
        }
    }
    None
}

/// The profile at the last known index, if it is one.
pub fn get_last_active_input_profile_cached(last_index: i32, profiles: &Vec<TsfProfile>) -> (r: Option<TsfProfile>)
    ensures
        (0 <= last_index && (last_index as int) < profiles.len()) ==> (r matches Some(p) && p@ == profiles@[last_index as int]@),
        !(0 <= last_index && (last_index as int) < profiles.len()) ==> r is None,
{
    if last_index >= 0 && (last_index as usize) < profiles.len() {
        Some(copy_profile(&profiles[last_index as usize]))
    } else {
        None
    }
}

// ---------------------------------------------------------------------------
// Preloaded keyboard layouts
// ---------------------------------------------------------------------------
pub open spec fn key_after(order: u32) -> spec_fn((u32, Seq<char>)) -> bool {
    |e: (u32, Seq<char>)| e.0 > order
}

/// Insertion by order, after the entries of equal order (a stable sort).
pub open spec fn insert_by_order(s: Seq<(u32, Seq<char>)>, x: (u32, Seq<char>)) -> Seq<(u32, Seq<char>)> {
    match first_index(s, key_after(x.0)) {
        Some(i) => s.insert(i, x),
        None => s.push(x),
    }
}

/// The values named by a number, sorted by that number (ties keep their
/// order).
pub open spec fn ordered_values(values: Seq<(Seq<char>, Seq<char>)>) -> Seq<(u32, Seq<char>)>
    decreases values.len(),
{
    if values.len() == 0 {
        seq![]
    } else {
        let before = ordered_values(values.drop_last());
        let (name, klid) = values.last();
        match parse_unsigned(name, 10, u32::MAX as nat) {
            Some(n) => insert_by_order(before, (n as u32, klid)),
            None => before,
        }
    }
}

/// The language of a layout id: its last four characters (or fewer) as hex,
/// else 0.
pub open spec fn klid_langid(n: Seq<char>) -> u16 {
    let tail = if n.len() >= 4 {
        n.skip(n.len() - 4)
    } else {
        n
    };
    match parse_unsigned(tail, 16, 0xffff) {
        Some(v) => v as u16,
        None => 0,
    }
}

/// The English layouts among the preloaded ones, in order, each id once:
/// (id in upper case, language).
pub open spec fn layout_candidates(ordered: Seq<(u32, Seq<char>)>) -> Seq<(Seq<char>, u16)>
    decreases ordered.len(),
{
    if ordered.len() == 0 {
        seq![]
    } else {
        let before = layout_candidates(ordered.drop_last());
        let n = unicode_uppercase(trim(ordered.last().1));
        let seen = exists|i: int| 0 <= i < ordered.len() - 1 && unicode_uppercase(trim(#[trigger] ordered[i].1)) == n;
        let langid = klid_langid(n);
        if n.len() == 0 || seen || (langid & 0x03ff) != 9 {
            before
        } else {
            before.push((n, langid))
        }
    }
}

/// Every listed layout comes from a preloaded one, has a non-empty id and
/// an English language read from that id, and no id is listed twice.
pub proof fn lemma_layout_candidates_english_once(ordered: Seq<(u32, Seq<char>)>)
    ensures
        forall|i: int|
            0 <= i < layout_candidates(ordered).len() ==> {
                let c = #[trigger] layout_candidates(ordered)[i];
                &&& c.0.len() > 0
                &&& (c.1 & 0x03ff) == 9
                &&& c.1 == klid_langid(c.0)
                &&& exists|k: int|
                    0 <= k < ordered.len() && unicode_uppercase(trim(#[trigger] ordered[k].1)) == c.0
            },
        forall|i: int, j: int|
            0 <= i < j < layout_candidates(ordered).len() ==> (#[trigger] layout_candidates(ordered)[i]).0
                != (#[trigger] layout_candidates(ordered)[j]).0,
    decreases ordered.len(),
{
    if ordered.len() > 0 {
        let o2 = ordered.drop_last();
        lemma_layout_candidates_english_once(o2);
        let before = layout_candidates(o2);
        let cands = layout_candidates(ordered);
        let n = unicode_uppercase(trim(ordered.last().1));
        let seen = exists|i: int|
            0 <= i < ordered.len() - 1 && unicode_uppercase(trim(#[trigger] ordered[i].1)) == n;
        assert forall|i: int| 0 <= i < before.len() implies exists|k: int|
            0 <= k < ordered.len() - 1 && unicode_uppercase(trim(#[trigger] ordered[k].1))
                == (#[trigger] before[i]).0 by {
            let c = before[i];
            let k = choose|k: int|
                0 <= k < o2.len() && unicode_uppercase(trim(#[trigger] o2[k].1)) == c.0;
            assert(o2[k] == ordered[k]);
        }
        if !(n.len() == 0 || seen || (klid_langid(n) & 0x03ff) != 9) {
            assert(cands == before.push((n, klid_langid(n))));
            assert forall|i: int| 0 <= i < cands.len() implies {
                let c = #[trigger] cands[i];
                &&& c.0.len() > 0
                &&& (c.1 & 0x03ff) == 9
                &&& c.1 == klid_langid(c.0)
                &&& exists|k: int|
                    0 <= k < ordered.len() && unicode_uppercase(trim(#[trigger] ordered[k].1)) == c.0
            } by {
                if i < before.len() {
                    assert(cands[i] == before[i]);
                    let k = choose|k: int|
                        0 <= k < ordered.len() - 1 && unicode_uppercase(trim(#[trigger] ordered[k].1))
                            == before[i].0;
                    assert(unicode_uppercase(trim(ordered[k].1)) == cands[i].0);
                } else {
                    let k = ordered.len() - 1;
                    assert(unicode_uppercase(trim(ordered[k].1)) == cands[i].0);
                }
            }
            assert forall|i: int, j: int| 0 <= i < j < cands.len() implies (#[trigger] cands[i]).0
                != (#[trigger] cands[j]).0 by {
                if j < before.len() {
                    assert(cands[i] == before[i] && cands[j] == before[j]);
                } else {
                    assert(cands[i] == before[i]);
                    let k = choose|k: int|
                        0 <= k < ordered.len() - 1 && unicode_uppercase(trim(#[trigger] ordered[k].1))
                            == before[i].0;
                    assert(unicode_uppercase(trim(ordered[k].1)) != n);
                }
            }
        } else {
            assert(cands == before);
            assert forall|i: int| 0 <= i < cands.len() implies exists|k: int|
                0 <= k < ordered.len() && unicode_uppercase(trim(#[trigger] ordered[k].1))
                    == (#[trigger] cands[i]).0 by {
                let k = choose|k: int|
                    0 <= k < ordered.len() - 1 && unicode_uppercase(trim(#[trigger] ordered[k].1))
                        == before[i].0;
                assert(unicode_uppercase(trim(ordered[k].1)) == cands[i].0);
            }
        }
    }
}

fn order_position(s: &Vec<(u32, String)>, order: u32) -> (r: Option<usize>)
    ensures
        match first_index(s@.map_values(|e: (u32, String)| (e.0, e.1@)), key_after(order)) {
            Some(k) => r == Some(k as usize) && 0 <= k <= s.len(),
            None => r is None,
        },
{
    let ghost v = s@.map_values(|e: (u32, String)| (e.0, e.1@));
    proof {
        lemma_first_index_bounds(v, key_after(order));
    }
    let mut i: usize = 0;
    while i < s.len()
        invariant
            i <= s.len(),
            v == s@.map_values(|e: (u32, String)| (e.0, e.1@)),
            forall|j: int| 0 <= j < i ==> !(#[trigger] key_after(order))(v[j]),
        decreases s.len() - i,
    {
        proof {
            assert(v[i as int] == (s@[i as int].0, s@[i as int].1@));
        }
        if s[i].0 > order {
            proof {
                lemma_first_index_is(v, key_after(order), i as int);
            }
            return Some(i);
        }
        i = i + 1;
    }
    proof {
        lemma_first_index_none(v, key_after(order));
    }
    None
}

fn insert_by_order_exec(s: &mut Vec<(u32, String)>, x: (u32, String))
    ensures
        final(s)@.map_values(|e: (u32, String)| (e.0, e.1@)) == insert_by_order(
            old(s)@.map_values(|e: (u32, String)| (e.0, e.1@)),
            (x.0, x.1@),
        ),
{
    let ghost v = s@.map_values(|e: (u32, String)| (e.0, e.1@));
    let ghost xv = (x.0, x.1@);
    match order_position(s, x.0) {
        Some(i) => {
            s.insert(i, x);
            proof {
                assert(s@.map_values(|e: (u32, String)| (e.0, e.1@)) =~= v.insert(i as int, xv));
            }
        },
        None => {
            s.push(x);
            proof {
                assert(s@.map_values(|e: (u32, String)| (e.0, e.1@)) =~= v.push(xv));
            }
        },
    }
}

pub open spec fn value_views(v: Seq<(String, String)>) -> Seq<(Seq<char>, Seq<char>)> {
    v.map_values(|e: (String, String)| (e.0@, e.1@))
}

fn klid_langid_exec(n: &[char]) -> (r: u16)
    ensures
        r == klid_langid(n@),
{
    let tail = if n.len() >= 4 {
        let t = crate::text::slice_vec(n, n.len() - 4, n.len());
        assert(t@ == n@.skip(n.len() - 4));
        t
    } else {
        crate::text::slice_vec(n, 0, n.len())
    };
    assert(n.len() < 4 ==> tail@ == n@);
    match parse_unsigned_exec(tail.as_slice(), 16, 0xffff) {
        Some(v) => v as u16,
        None => 0,
    }
}

/// The English layouts among the preloaded values (value name, layout id),
/// in the order their names give, each layout once.
pub fn preload_layout_candidates(values: &Vec<(String, String)>) -> (r: Vec<(String, u16)>)
    ensures
        r@.map_values(|e: (String, u16)| (e.0@, e.1)) == layout_candidates(ordered_values(value_views(values@))),
{
    let ghost vv = value_views(values@);
    let mut ordered: Vec<(u32, String)> = Vec::new();
    let mut i: usize = 0;
    while i < values.len()
        invariant
            i <= values.len(),
            vv == value_views(values@),
            ordered@.map_values(|e: (u32, String)| (e.0, e.1@)) == ordered_values(vv.take(i as int)),
        decreases values.len() - i,
    {
        proof {
            assert(vv.take(i + 1).drop_last() == vv.take(i as int));
            assert(vv.take(i + 1).last() == vv[i as int]);
            assert(vv[i as int] == (values@[i as int].0@, values@[i as int].1@));
        }
        let name = chars_of(values[i].0.as_str());
        match parse_unsigned_exec(name.as_slice(), 10, 0xffff_ffff) {
            Some(n) => {
                let k = chars_of(values[i].1.as_str());
                insert_by_order_exec(&mut ordered, (n as u32, string_of(k.as_slice())));
            },
            None => {},
        }
        i = i + 1;
    }
    assert(vv.take(values.len() as int) == vv);
    let ghost ov = ordered@.map_values(|e: (u32, String)| (e.0, e.1@));
    let mut norms: Vec<String> = Vec::new();
    let mut out: Vec<(String, u16)> = Vec::new();
    let mut j: usize = 0;
    while j < ordered.len()
        invariant
            j <= ordered.len(),
            ov == ordered@.map_values(|e: (u32, String)| (e.0, e.1@)),
            norms.len() == j,
            forall|k: int| 0 <= k < j ==> (#[trigger] norms@[k])@ == unicode_uppercase(trim(ov[k].1)),
            out@.map_values(|e: (String, u16)| (e.0@, e.1)) == layout_candidates(ov.take(j as int)),
        decreases ordered.len() - j,
    {
        proof {
            assert(ov.take(j + 1).drop_last() == ov.take(j as int));
            assert(ov.take(j + 1).last() == ov[j as int]);
            assert(ov[j as int] == (ordered@[j as int].0, ordered@[j as int].1@));
        }
        let kc = chars_of(ordered[j].1.as_str());
        let kt = trim_chars(kc.as_slice());
        let ks = string_of(kt.as_slice());
        let n = to_uppercase(ks.as_str());
        let nc = chars_of(n.as_str());
        let mut seen = false;
        let mut m: usize = 0;
        while m < norms.len()
            invariant
                m <= norms.len(),
                norms.len() == j,
                j < ordered.len(),
                n@ == unicode_uppercase(trim(ov[j as int].1)),
                forall|k: int| 0 <= k < j ==> (#[trigger] norms@[k])@ == unicode_uppercase(trim(ov[k].1)),
                seen == exists|k: int| 0 <= k < m && unicode_uppercase(trim(#[trigger] ov[k].1)) == n@,
            decreases norms.len() - m,
        {
            if crate::text::eq_str(norms[m].as_str(), n.as_str()) {
                seen = true;
            }
            m = m + 1;
        }
        let langid = klid_langid_exec(nc.as_slice());
        proof {
            let t = ov.take(j + 1);
            assert(t.last() == ov[j as int]);
            assert(seen == exists|k: int| 0 <= k < t.len() - 1 && unicode_uppercase(trim(#[trigger] t[k].1))
                == unicode_uppercase(trim(t.last().1))) by {
                if seen {
                    let k = choose|k: int| 0 <= k < j && unicode_uppercase(trim(#[trigger] ov[k].1)) == n@;
                    assert(t[k] == ov[k]);
                }
                if exists|k: int| 0 <= k < t.len() - 1 && unicode_uppercase(trim(#[trigger] t[k].1))
                    == unicode_uppercase(trim(t.last().1)) {
                    let k = choose|k: int| 0 <= k < t.len() - 1 && unicode_uppercase(trim(#[trigger] t[k].1))
                        == unicode_uppercase(trim(t.last().1));
                    assert(t[k] == ov[k]);
                }
            }
        }
        if !(nc.len() == 0 || seen || (langid & 0x03ff) != 9) {
            let ghost before = out@.map_values(|e: (String, u16)| (e.0@, e.1));
            out.push((string_of(nc.as_slice()), langid));
            proof {
                assert(out@.map_values(|e: (String, u16)| (e.0@, e.1)) =~= before.push((n@, langid)));
            }
        }
        norms.push(n);
        j = j + 1;
    }
    assert(ov.take(ordered.len() as int) == ov);
    out
}

/// A layout's description: the registry text when not blank, else
/// `Keyboard Layout <id>`.
pub open spec fn layout_description(klid: Seq<char>, text: Option<Seq<char>>) -> Seq<char> {
    match text {
        Some(t) => if trim(t).len() > 0 {
            t
        } else {
            "Keyboard Layout "@ + klid
        },
        None => "Keyboard Layout "@ + klid,
    }
}

/// The installed English layouts, each marked active when its language is
/// that of the foreground window's layout.
pub fn get_installed_keyboard_layouts(candidates: &Vec<(String, u16, Option<String>)>, active_langid: u16) -> (r: Vec<KeyboardLayoutProfile>)
    ensures
        r@.len() == candidates@.len(),
        forall|i: int| 0 <= i < r@.len() ==> {
            let c = #[trigger] candidates@[i];
            &&& r@[i].klid@ == c.0@
            &&& r@[i].langid == c.1
            &&& r@[i].hkl@ == "0x"@ + pad_left(radix_digits(c.1 as nat, 16, true), 16, '0')
            &&& r@[i].description@ == layout_description(c.0@, match c.2 {
                Some(t) => Some(t@),
                None => None,
            })
            &&& r@[i].active == (active_langid == c.1)
        },
{
    let mut out: Vec<KeyboardLayoutProfile> = Vec::new();
    let mut i: usize = 0;
    while i < candidates.len()
        invariant
            i <= candidates.len(),
            out@.len() == i,
            forall|k: int| 0 <= k < i ==> {
                let c = #[trigger] candidates@[k];
                &&& out@[k].klid@ == c.0@
                &&& out@[k].langid == c.1
                &&& out@[k].hkl@ == "0x"@ + pad_left(radix_digits(c.1 as nat, 16, true), 16, '0')
                &&& out@[k].description@ == layout_description(c.0@, match c.2 {
                    Some(t) => Some(t@),
                    None => None,
                })
                &&& out@[k].active == (active_langid == c.1)
            },
        decreases candidates.len() - i,
    {
        let c = &candidates[i];
        let mut hkl = chars_of("0x");
        let h = hex_padded(c.1 as u64, 16, true);
        push_all(&mut hkl, h.as_slice());
        let fallback = || -> (r: Vec<char>)
            ensures
                r@ == "Keyboard Layout "@ + c.0@,
        {
            let mut d = chars_of("Keyboard Layout ");
            push_str_chars(&mut d, c.0.as_str());
            d
        };
        let desc = match &c.2 {
            Some(t) => {
                let tc = chars_of(t.as_str());
                let tt = trim_chars(tc.as_slice());
                if tt.len() > 0 {
                    tc
                } else {
                    fallback()
                }
            },
            None => fallback(),
        };
        let k = chars_of(c.0.as_str());
        out.push(
            KeyboardLayoutProfile {
                hkl: string_of(hkl.as_slice()),
                klid: string_of(k.as_slice()),
                langid: c.1,
                description: string_of(desc.as_slice()),
                active: active_langid == c.1,
            },
        );
        i = i + 1;
    }
    out
}

} // verus!
