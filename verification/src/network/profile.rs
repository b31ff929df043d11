//! WLAN profile XML, security labels, BSSIDs and network scoring.
use vstd::prelude::*;
use vstd::utf8::encode_utf8;

use crate::text::{split_on, find_after, split_on_exec, views, ascii_upper, chars_of, eq_chars, eq_ignore_case, eq_ignore_case_chars, eq_str, first_occurrence, hex_padded, lower_vec, occurs_at, pad_left, parse_unsigned, parse_unsigned_exec, push_all, push_str_chars, radix_digits, slice_vec, string_of, trim, trim_chars, upper_vec, ascii_lower, find_chars, decimal, lemma_first_occurrence_is, lead_ws, lemma_first_occurrence_facts, trail_ws, contains};

use crate::whitelist::{
    first_index, lemma_first_index_bounds, lemma_first_index_is, lemma_first_index_none,
};

verus! {

/// DOT11 authentication algorithms 3 (WPA) and 6 (RSNA) are 802.1X ones.
pub open spec fn spec_is_enterprise_auth_alg(auth_alg: u32) -> bool {
    auth_alg == 3 || auth_alg == 6
}

pub fn is_enterprise_auth_alg(auth_alg: u32) -> (r: bool)
    ensures
        r == spec_is_enterprise_auth_alg(auth_alg),
{
    auth_alg == 3 || auth_alg == 6
}

// ---------------------------------------------------------------------------
// XML escaping
// ---------------------------------------------------------------------------
pub open spec fn xml_escape_char(c: char) -> Seq<char> {
    if c == '&' {
        "&amp;"@
    } else if c == '<' {
        "&lt;"@
    } else if c == '>' {
        "&gt;"@
    } else if c == '"' {
        "&quot;"@
    } else if c == '\'' {
        "&apos;"@
    } else {
        seq![c]
    }
}

/// Each of `& < > " '` replaced by its XML entity.
pub open spec fn xml_escape_seq(s: Seq<char>) -> Seq<char>
    decreases s.len(),
{
    if s.len() == 0 {
        seq![]
    } else {
        xml_escape_seq(s.drop_last()) + xml_escape_char(s.last())
    }
}

fn push_escaped_char(out: &mut Vec<char>, c: char)
    ensures
        final(out)@ == old(out)@ + xml_escape_char(c),
{
    if c == '&' {
        push_str_chars(out, "&amp;");
    } else if c == '<' {
        push_str_chars(out, "&lt;");
    } else if c == '>' {
        push_str_chars(out, "&gt;");
    } else if c == '"' {
        push_str_chars(out, "&quot;");
    } else if c == '\'' {
        push_str_chars(out, "&apos;");
    } else {
        out.push(c);
    }
}

fn xml_escape_chars(s: &[char]) -> (r: Vec<char>)
    ensures
        r@ == xml_escape_seq(s@),
{
    let mut out: Vec<char> = Vec::new();
    let mut i: usize = 0;
    while i < s.len()
        invariant
            i <= s.len(),
            out@ == xml_escape_seq(s@.take(i as int)),
        decreases s.len() - i,
    {
        let ghost before = out@;
        push_escaped_char(&mut out, s[i]);
        assert(s@.take(i + 1).drop_last() == s@.take(i as int));
        i = i + 1;
    }
    assert(s@.take(s.len() as int) == s@);
    out
}

pub fn xml_escape(s: &str) -> (r: String)
    ensures
        r@ == xml_escape_seq(s@),
{
    let v = chars_of(s);
    let e = xml_escape_chars(v.as_slice());
    string_of(e.as_slice())
}

/// `c` in front of what `o` reads, if it reads anything.
pub open spec fn read_after(c: char, o: Option<Seq<char>>) -> Option<Seq<char>> {
    match o {
        Some(v) => Some(seq![c] + v),
        None => None,
    }
}

/// The text an XML reader takes from the character data `t`: each of the
/// five predefined entities stands for its character, any other character
/// stands for itself, and a `<`, or an `&` that starts no entity, makes `t`
/// no character data at all (`None`).
pub open spec fn xml_text_value(t: Seq<char>) -> Option<Seq<char>>
    decreases t.len(),
{
    if t.len() == 0 {
        Some(seq![])
    } else if t[0] == '<' {
        None
    } else if t[0] == '&' {
        if t.len() >= 5 && t.subrange(0, 5) == seq!['&', 'a', 'm', 'p', ';'] {
            read_after('&', xml_text_value(t.skip(5)))
        } else if t.len() >= 4 && t.subrange(0, 4) == seq!['&', 'l', 't', ';'] {
            read_after('<', xml_text_value(t.skip(4)))
        } else if t.len() >= 4 && t.subrange(0, 4) == seq!['&', 'g', 't', ';'] {
            read_after('>', xml_text_value(t.skip(4)))
        } else if t.len() >= 6 && t.subrange(0, 6) == seq!['&', 'q', 'u', 'o', 't', ';'] {
            read_after('"', xml_text_value(t.skip(6)))
        } else if t.len() >= 6 && t.subrange(0, 6) == seq!['&', 'a', 'p', 'o', 's', ';'] {
            read_after('\'', xml_text_value(t.skip(6)))
        } else {
            None
        }
    } else {
        read_after(t[0], xml_text_value(t.skip(1)))
    }
}

/// `s` in front of what `o` reads, if it reads anything.
pub open spec fn read_after_all(s: Seq<char>, o: Option<Seq<char>>) -> Option<Seq<char>> {
    match o {
        Some(v) => Some(s + v),
        None => None,
    }
}

proof fn lemma_escaped_char_reads_back(c: char, b: Seq<char>)
    ensures
        xml_text_value(xml_escape_char(c) + b) == read_after(c, xml_text_value(b)),
{
    reveal_strlit("&amp;");
    reveal_strlit("&lt;");
    reveal_strlit("&gt;");
    reveal_strlit("&quot;");
    reveal_strlit("&apos;");
    let t = xml_escape_char(c) + b;
    let e = xml_escape_char(c);
    assert(t.skip(e.len() as int) =~= b);
    assert(t.subrange(0, e.len() as int) =~= e);
    if c == '&' {
        assert(t.subrange(0, 5) =~= seq!['&', 'a', 'm', 'p', ';']);
    } else if c == '<' {
        assert(t[1] == 'l');
        if t.len() >= 5 {
            assert(t.subrange(0, 5)[1] == t[1]);
        }
        assert(t.subrange(0, 4) =~= seq!['&', 'l', 't', ';']);
    } else if c == '>' {
        assert(t[1] == 'g');
        if t.len() >= 5 {
            assert(t.subrange(0, 5)[1] == t[1]);
        }
        assert(t.subrange(0, 4)[1] == t[1]);
        assert(t.subrange(0, 4) =~= seq!['&', 'g', 't', ';']);
    } else if c == '"' {
        assert(t[1] == 'q');
        assert(t.subrange(0, 5)[1] == t[1]);
        assert(t.subrange(0, 4)[1] == t[1]);
        assert(t.subrange(0, 6) =~= seq!['&', 'q', 'u', 'o', 't', ';']);
    } else if c == '\'' {
        assert(t[1] == 'a' && t[2] == 'p');
        assert(t.subrange(0, 5)[2] == t[2]);
        assert(t.subrange(0, 4)[1] == t[1]);
        assert(t.subrange(0, 6)[1] == t[1]);
        assert(t.subrange(0, 6) =~= seq!['&', 'a', 'p', 'o', 's', ';']);
    } else {
        assert(t[0] == c);
    }
}

proof fn lemma_escaped_reads_back_before(s: Seq<char>, b: Seq<char>)
    ensures
        xml_text_value(xml_escape_seq(s) + b) == read_after_all(s, xml_text_value(b)),
    decreases s.len(),
{
    if s.len() == 0 {
        assert(xml_escape_seq(s) + b =~= b);
        assert(read_after_all(s, xml_text_value(b)) == xml_text_value(b)) by {
            match xml_text_value(b) {
                Some(v) => {
                    assert(s + v =~= v);
                },
                None => {},
            }
        }
    } else {
        let c = s.last();
        let sp = s.drop_last();
        let e = xml_escape_char(c);
        assert(xml_escape_seq(s) + b =~= xml_escape_seq(sp) + (e + b));
        lemma_escaped_reads_back_before(sp, e + b);
        lemma_escaped_char_reads_back(c, b);
        match xml_text_value(b) {
            Some(v) => {
                assert(sp + (seq![c] + v) =~= s + v);
            },
            None => {},
        }
    }
}

/// Escaping is undone by reading: an XML reader takes exactly `s` back
/// from `xml_escape_seq(s)`, so no `&`, `<` or `>` of `s` is left raw.
pub proof fn lemma_xml_escape_reads_back(s: Seq<char>)
    ensures
        xml_text_value(xml_escape_seq(s)) == Some(s),
{
    lemma_escaped_reads_back_before(s, seq![]);
    assert(xml_escape_seq(s) + seq![] =~= xml_escape_seq(s));
    assert(s + seq![] =~= s);
}

// ---------------------------------------------------------------------------
// Security labels
// ---------------------------------------------------------------------------
/// `_` replaced by `-`.
pub open spec fn dashes(s: Seq<char>) -> Seq<char> {
    s.map_values(|c: char|
        if c == '_' {
            '-'
        } else {
            c
        })
}

fn dashes_vec(s: &[char]) -> (r: Vec<char>)
    ensures
        r@ == dashes(s@),
{
    let mut r: Vec<char> = Vec::new();
    let mut i: usize = 0;
    while i < s.len()
        invariant
            i <= s.len(),
            r@ == dashes(s@.take(i as int)),
        decreases s.len() - i,
    {
        let c = if s[i] == '_' {
            '-'
        } else {
            s[i]
        };
        r.push(c);
        assert(dashes(s@.take(i + 1)) == dashes(s@.take(i as int)).push(c));
        i = i + 1;
    }
    assert(s@.take(s.len() as int) == s@);
    r
}

/// The authentication label that a WLAN profile takes.
pub open spec fn spec_normalize_authentication(s: Seq<char>) -> Seq<char> {
    let raw = trim(s);
    let up = ascii_upper(dashes(raw));
    if raw.len() == 0 {
        seq![]
    } else if up == "OPEN"@ {
        "open"@
    } else if up == "WPA2"@ || up == "WPA2-ENTERPRISE"@ || up == "WPA2 ENTERPRISE"@ {
        "WPA2"@
    } else if up == "WPA"@ || up == "WPA-ENTERPRISE"@ || up == "WPA ENTERPRISE"@ {
        "WPA"@
    } else if up == "WPA2-PSK"@ || up == "WPA2 PSK"@ || up == "WPA2PSK"@ {
        "WPA2PSK"@
    } else if up == "WPA-PSK"@ || up == "WPA PSK"@ || up == "WPAPSK"@ {
        "WPAPSK"@
    } else if up == "WPA3-SAE"@ || up == "WPA3 SAE"@ || up == "WPA3SAE"@ {
        "WPA3SAE"@
    } else {
        raw
    }
}

fn is_lit(s: &[char], lit: &str) -> (r: bool)
    ensures
        r == (s@ == lit@),
{
    let l = chars_of(lit);
    eq_chars(s, l.as_slice())
}

fn lit_vec(lit: &str) -> (r: Vec<char>)
    ensures
        r@ == lit@,
{
    chars_of(lit)
}

pub fn normalize_authentication_chars(s: &[char]) -> (r: Vec<char>)
    ensures
        r@ == spec_normalize_authentication(s@),
{
    let raw = trim_chars(s);
    if raw.len() == 0 {
        return Vec::new();
    }
    let d = dashes_vec(raw.as_slice());
    let up = upper_vec(d.as_slice());
    let u = up.as_slice();
    if is_lit(u, "OPEN") {
        lit_vec("open")
    } else if is_lit(u, "WPA2") || is_lit(u, "WPA2-ENTERPRISE") || is_lit(u, "WPA2 ENTERPRISE") {
        lit_vec("WPA2")
    } else if is_lit(u, "WPA") || is_lit(u, "WPA-ENTERPRISE") || is_lit(u, "WPA ENTERPRISE") {
        lit_vec("WPA")
    } else if is_lit(u, "WPA2-PSK") || is_lit(u, "WPA2 PSK") || is_lit(u, "WPA2PSK") {
        lit_vec("WPA2PSK")
    } else if is_lit(u, "WPA-PSK") || is_lit(u, "WPA PSK") || is_lit(u, "WPAPSK") {
        lit_vec("WPAPSK")
    } else if is_lit(u, "WPA3-SAE") || is_lit(u, "WPA3 SAE") || is_lit(u, "WPA3SAE") {
        lit_vec("WPA3SAE")
    } else {
        raw
    }
}

pub fn normalize_authentication(s: &str) -> (r: String)
    ensures
        r@ == spec_normalize_authentication(s@),
{
    let v = chars_of(s);
    let n = normalize_authentication_chars(v.as_slice());
    string_of(n.as_slice())
}

/// Authentication labels that mean 802.1X.
pub open spec fn spec_is_enterprise_auth(s: Seq<char>) -> bool {
    let a = spec_normalize_authentication(s);
    eq_ignore_case(a, "WPA"@) || eq_ignore_case(a, "WPA2"@)
}

pub fn is_enterprise_auth(authentication: &str) -> (r: bool)
    ensures
        r == spec_is_enterprise_auth(authentication@),
{
    let v = chars_of(authentication);
    let a = normalize_authentication_chars(v.as_slice());
    let wpa = lit_vec("WPA");
    let wpa2 = lit_vec("WPA2");
    eq_ignore_case_chars(a.as_slice(), wpa.as_slice()) || eq_ignore_case_chars(
        a.as_slice(),
        wpa2.as_slice(),
    )
}

/// The encryption label that a WLAN profile takes.
pub open spec fn spec_normalize_encryption(s: Seq<char>) -> Seq<char> {
    let raw = trim(s);
    let up = ascii_upper(dashes(raw));
    if raw.len() == 0 {
        seq![]
    } else if up == "NONE"@ {
        "none"@
    } else if up == "AES"@ || up == "CCMP"@ {
        "AES"@
    } else if up == "TKIP"@ {
        "TKIP"@
    } else {
        raw
    }
}

pub fn normalize_encryption_chars(s: &[char]) -> (r: Vec<char>)
    ensures
        r@ == spec_normalize_encryption(s@),
{
    let raw = trim_chars(s);
    if raw.len() == 0 {
        return Vec::new();
    }
    let d = dashes_vec(raw.as_slice());
    let up = upper_vec(d.as_slice());
    let u = up.as_slice();
    if is_lit(u, "NONE") {
        lit_vec("none")
    } else if is_lit(u, "AES") || is_lit(u, "CCMP") {
        lit_vec("AES")
    } else if is_lit(u, "TKIP") {
        lit_vec("TKIP")
    } else {
        raw
    }
}

pub fn normalize_encryption(s: &str) -> (r: String)
    ensures
        r@ == spec_normalize_encryption(s@),
{
    let v = chars_of(s);
    let n = normalize_encryption_chars(v.as_slice());
    string_of(n.as_slice())
}

/// DOT11 authentication algorithm to profile label; unknown ones read as
/// `WPA2PSK`.
pub open spec fn profile_auth_label(auth: u32) -> Seq<char> {
    if auth == 1 {
        "open"@
    } else if auth == 3 {
        "WPA"@
    } else if auth == 4 {
        "WPAPSK"@
    } else if auth == 6 {
        "WPA2"@
    } else {
        "WPA2PSK"@
    }
}

pub fn auth_alg_to_profile_auth(auth: u32) -> (r: &'static str)
    ensures
        r@ == profile_auth_label(auth),
{
    if auth == 1 {
        "open"
    } else if auth == 3 {
        "WPA"
    } else if auth == 4 {
        "WPAPSK"
    } else if auth == 6 {
        "WPA2"
    } else {
        "WPA2PSK"
    }
}

/// DOT11 cipher algorithm to profile label; unknown ones read as `AES`.
pub open spec fn profile_enc_label(cipher: u32) -> Seq<char> {
    if cipher == 0 {
        "none"@
    } else if cipher == 2 {
        "TKIP"@
    } else {
        "AES"@
    }
}

pub fn cipher_alg_to_profile_enc(cipher: u32) -> (r: &'static str)
    ensures
        r@ == profile_enc_label(cipher),
{
    if cipher == 0 {
        "none"
    } else if cipher == 2 {
        "TKIP"
    } else {
        "AES"
    }
}

// ---------------------------------------------------------------------------
// Profile XML
// ---------------------------------------------------------------------------
/// Upper-case two-digit hex of each byte.
pub open spec fn hex_bytes_upper(b: Seq<u8>) -> Seq<char>
    decreases b.len(),
{
    if b.len() == 0 {
        seq![]
    } else {
        hex_bytes_upper(b.drop_last()) + pad_left(radix_digits(b.last() as nat, 16, true), 2, '0')
    }
}

fn hex_bytes_upper_exec(b: &[u8]) -> (r: Vec<char>)
    ensures
        r@ == hex_bytes_upper(b@),
{
    let mut out: Vec<char> = Vec::new();
    let mut i: usize = 0;
    while i < b.len()
        invariant
            i <= b.len(),
            out@ == hex_bytes_upper(b@.take(i as int)),
        decreases b.len() - i,
    {
        let h = hex_padded(b[i] as u64, 2, true);
        push_all(&mut out, h.as_slice());
        assert(b@.take(i + 1).drop_last() == b@.take(i as int));
        i = i + 1;
    }
    assert(b@.take(b.len() as int) == b@);
    out
}

pub open spec fn xml_head() -> Seq<char> {
    "<?xml version=\"1.0\"?>\n<WLANProfile xmlns=\"http://www.microsoft.com/networking/WLAN/profile/v1\">\n  <name>"@
}

pub open spec fn xml_after_name() -> Seq<char> {
    "</name>\n  <SSIDConfig>\n    <SSID>\n            <hex>"@
}

pub open spec fn xml_after_hex() -> Seq<char> {
    "</hex>\n      <name>"@
}

pub open spec fn xml_open_tail() -> Seq<char> {
    "</name>\n    </SSID>\n  </SSIDConfig>\n  <connectionType>ESS</connectionType>\n    <connectionMode>auto</connectionMode>\n  <MSM>\n    <security>\n      <authEncryption>\n        <authentication>open</authentication>\n        <encryption>none</encryption>\n        <useOneX>false</useOneX>\n      </authEncryption>\n    </security>\n  </MSM>\n</WLANProfile>"@
}

pub open spec fn xml_secured_mid() -> Seq<char> {
    "</name>\n    </SSID>\n  </SSIDConfig>\n  <connectionType>ESS</connectionType>\n    <connectionMode>auto</connectionMode>\n  <MSM>\n    <security>\n      <authEncryption>\n        <authentication>"@
}

pub open spec fn xml_after_auth() -> Seq<char> {
    "</authentication>\n        <encryption>"@
}

pub open spec fn xml_after_enc() -> Seq<char> {
    "</encryption>\n        <useOneX>false</useOneX>\n      </authEncryption>\n      <sharedKey>\n        <keyType>passPhrase</keyType>\n        <protected>false</protected>\n        <keyMaterial>"@
}

pub open spec fn xml_secured_tail() -> Seq<char> {
    "</keyMaterial>\n      </sharedKey>\n    </security>\n  </MSM>\n</WLANProfile>"@
}

/// The WLAN profile XML for a network. Open networks (open authentication or
/// no encryption) get no shared key.
pub open spec fn profile_xml(
    profile_name: Seq<char>,
    ssid: Seq<char>,
    authentication: Seq<char>,
    encryption: Seq<char>,
    password: Option<Seq<char>>,
) -> Seq<char> {
    let name = xml_escape_seq(profile_name);
    let ssid_esc = xml_escape_seq(ssid);
    let hex = hex_bytes_upper(encode_utf8(ssid));
    let auth_norm = spec_normalize_authentication(authentication);
    let enc_norm = spec_normalize_encryption(encryption);
    let head = xml_head() + name + xml_after_name() + hex + xml_after_hex() + ssid_esc;
    if eq_ignore_case(auth_norm, "open"@) || eq_ignore_case(enc_norm, "none"@) {
        head + xml_open_tail()
    } else {
        let key = match password {
            Some(p) => xml_escape_seq(p),
            None => seq![],
        };
        head + xml_secured_mid() + xml_escape_seq(auth_norm) + xml_after_auth() + xml_escape_seq(
            enc_norm,
        ) + xml_after_enc() + key + xml_secured_tail()
    }
}

pub fn create_profile_xml(
    profile_name: &str,
    ssid: &str,
    authentication: &str,
    encryption: &str,
    password: Option<&str>,
) -> (r: String)
    ensures
        r@ == profile_xml(
            profile_name@,
            ssid@,
            authentication@,
            encryption@,
            match password {
                Some(p) => Some(p@),
                None => None,
            },
        ),
{
    let name_v = chars_of(profile_name);
    let ssid_v = chars_of(ssid);
    let name = xml_escape_chars(name_v.as_slice());
    let ssid_esc = xml_escape_chars(ssid_v.as_slice());
    let hex = hex_bytes_upper_exec(ssid.as_bytes());
    let auth_v = chars_of(authentication);
    let enc_v = chars_of(encryption);
    let auth_norm = normalize_authentication_chars(auth_v.as_slice());
    let enc_norm = normalize_encryption_chars(enc_v.as_slice());
    let mut out: Vec<char> = Vec::new();
    push_str_chars(&mut out, "<?xml version=\"1.0\"?>\n<WLANProfile xmlns=\"http://www.microsoft.com/networking/WLAN/profile/v1\">\n  <name>");
    push_all(&mut out, name.as_slice());
    push_str_chars(&mut out, "</name>\n  <SSIDConfig>\n    <SSID>\n            <hex>");
    push_all(&mut out, hex.as_slice());
    push_str_chars(&mut out, "</hex>\n      <name>");
    push_all(&mut out, ssid_esc.as_slice());
    let open = lit_vec("open");
    let none = lit_vec("none");
    if eq_ignore_case_chars(auth_norm.as_slice(), open.as_slice()) || eq_ignore_case_chars(
        enc_norm.as_slice(),
        none.as_slice(),
    ) {
        push_str_chars(&mut out, "</name>\n    </SSID>\n  </SSIDConfig>\n  <connectionType>ESS</connectionType>\n    <connectionMode>auto</connectionMode>\n  <MSM>\n    <security>\n      <authEncryption>\n        <authentication>open</authentication>\n        <encryption>none</encryption>\n        <useOneX>false</useOneX>\n      </authEncryption>\n    </security>\n  </MSM>\n</WLANProfile>");
    } else {
        push_str_chars(&mut out, "</name>\n    </SSID>\n  </SSIDConfig>\n  <connectionType>ESS</connectionType>\n    <connectionMode>auto</connectionMode>\n  <MSM>\n    <security>\n      <authEncryption>\n        <authentication>");
        let auth = xml_escape_chars(auth_norm.as_slice());
        push_all(&mut out, auth.as_slice());
        push_str_chars(&mut out, "</authentication>\n        <encryption>");
        let enc = xml_escape_chars(enc_norm.as_slice());
        push_all(&mut out, enc.as_slice());
        push_str_chars(&mut out, "</encryption>\n        <useOneX>false</useOneX>\n      </authEncryption>\n      <sharedKey>\n        <keyType>passPhrase</keyType>\n        <protected>false</protected>\n        <keyMaterial>");
        match password {
            Some(p) => {
                let pv = chars_of(p);
                let key = xml_escape_chars(pv.as_slice());
                push_all(&mut out, key.as_slice());
            },
            None => {
                assert(xml_escape_seq(seq![]) == Seq::<char>::empty());
            },
        }
        push_str_chars(&mut out, "</keyMaterial>\n      </sharedKey>\n    </security>\n  </MSM>\n</WLANProfile>");
    }
    string_of(out.as_slice())
}

// ---------------------------------------------------------------------------
// Connection mode inside an existing profile
// ---------------------------------------------------------------------------
/// Whether a profile connects automatically: the (ASCII-lowercased) text
/// between `<connectionmode>` and the next `</connectionmode>` is `auto`
/// once trimmed; profiles without the element connect automatically.
/// The SSID's `<name>` element of a profile, the one after its hex form,
/// holds character data that an XML reader reads back as the SSID exactly.
pub proof fn lemma_profile_ssid_reads_back(
    profile_name: Seq<char>,
    ssid: Seq<char>,
    authentication: Seq<char>,
    encryption: Seq<char>,
    password: Option<Seq<char>>,
)
    ensures
        exists|pre: Seq<char>, content: Seq<char>, post: Seq<char>|
            #![trigger pre + content + post]
            {
                &&& profile_xml(profile_name, ssid, authentication, encryption, password) == pre
                    + content + post
                &&& crate::text::ends_with(pre, "</hex>\n      <name>"@)
                &&& crate::text::starts_with(post, "</name>"@)
                &&& xml_text_value(content) == Some(ssid)
            },
{
    reveal_strlit("</hex>\n      <name>");
    reveal_strlit("</name>");
    reveal_strlit("</name>\n    </SSID>\n  </SSIDConfig>\n  <connectionType>ESS</connectionType>\n    <connectionMode>auto</connectionMode>\n  <MSM>\n    <security>\n      <authEncryption>\n        <authentication>open</authentication>\n        <encryption>none</encryption>\n        <useOneX>false</useOneX>\n      </authEncryption>\n    </security>\n  </MSM>\n</WLANProfile>");
    reveal_strlit("</name>\n    </SSID>\n  </SSIDConfig>\n  <connectionType>ESS</connectionType>\n    <connectionMode>auto</connectionMode>\n  <MSM>\n    <security>\n      <authEncryption>\n        <authentication>");
    let xml = profile_xml(profile_name, ssid, authentication, encryption, password);
    let name = xml_escape_seq(profile_name);
    let content = xml_escape_seq(ssid);
    let hex = hex_bytes_upper(encode_utf8(ssid));
    let auth_norm = spec_normalize_authentication(authentication);
    let enc_norm = spec_normalize_encryption(encryption);
    let pre = xml_head() + name + xml_after_name() + hex + xml_after_hex();
    let post = if eq_ignore_case(auth_norm, "open"@) || eq_ignore_case(enc_norm, "none"@) {
        xml_open_tail()
    } else {
        let key = match password {
            Some(p) => xml_escape_seq(p),
            None => seq![],
        };
        xml_secured_mid() + xml_escape_seq(auth_norm) + xml_after_auth() + xml_escape_seq(enc_norm)
            + xml_after_enc() + key + xml_secured_tail()
    };
    assert(xml =~= pre + content + post);
    assert(pre.subrange(pre.len() - xml_after_hex().len(), pre.len() as int) =~= xml_after_hex());
    assert(post.subrange(0, 7) =~= "</name>"@);
    lemma_xml_escape_reads_back(ssid);
}

/// The profile's own `<name>` element holds character data that an XML
/// reader reads back as the profile name, and for a secured network with a
/// password the `<keyMaterial>` element reads back as the password.
pub proof fn lemma_profile_name_and_key_read_back(
    profile_name: Seq<char>,
    ssid: Seq<char>,
    authentication: Seq<char>,
    encryption: Seq<char>,
    password: Option<Seq<char>>,
)
    ensures
        exists|pre: Seq<char>, content: Seq<char>, post: Seq<char>|
            #![trigger pre + content + post]
            {
                &&& profile_xml(profile_name, ssid, authentication, encryption, password) == pre
                    + content + post
                &&& crate::text::ends_with(pre, "\n  <name>"@)
                &&& crate::text::starts_with(post, "</name>\n  <SSIDConfig>"@)
                &&& xml_text_value(content) == Some(profile_name)
            },
        password is Some && !(eq_ignore_case(spec_normalize_authentication(authentication), "open"@)
            || eq_ignore_case(spec_normalize_encryption(encryption), "none"@)) ==> exists|
            pre: Seq<char>,
            content: Seq<char>,
            post: Seq<char>,
        |
            #![trigger pre + content + post]
            {
                &&& profile_xml(profile_name, ssid, authentication, encryption, password) == pre
                    + content + post
                &&& crate::text::ends_with(pre, "<keyMaterial>"@)
                &&& crate::text::starts_with(post, "</keyMaterial>"@)
                &&& xml_text_value(content) == password
            },
{
    reveal_strlit("\n  <name>");
    reveal_strlit("</name>\n  <SSIDConfig>");
    reveal_strlit("<keyMaterial>");
    reveal_strlit("</keyMaterial>");
    reveal_strlit("<?xml version=\"1.0\"?>\n<WLANProfile xmlns=\"http://www.microsoft.com/networking/WLAN/profile/v1\">\n  <name>");
    reveal_strlit("</name>\n  <SSIDConfig>\n    <SSID>\n            <hex>");
    reveal_strlit("</encryption>\n        <useOneX>false</useOneX>\n      </authEncryption>\n      <sharedKey>\n        <keyType>passPhrase</keyType>\n        <protected>false</protected>\n        <keyMaterial>");
    reveal_strlit("</keyMaterial>\n      </sharedKey>\n    </security>\n  </MSM>\n</WLANProfile>");
    let xml = profile_xml(profile_name, ssid, authentication, encryption, password);
    let name = xml_escape_seq(profile_name);
    let ssid_esc = xml_escape_seq(ssid);
    let hex = hex_bytes_upper(encode_utf8(ssid));
    let auth_norm = spec_normalize_authentication(authentication);
    let enc_norm = spec_normalize_encryption(encryption);
    let open = eq_ignore_case(auth_norm, "open"@) || eq_ignore_case(enc_norm, "none"@);
    let key = match password {
        Some(p) => xml_escape_seq(p),
        None => seq![],
    };
    let tail = if open {
        xml_open_tail()
    } else {
        xml_secured_mid() + xml_escape_seq(auth_norm) + xml_after_auth() + xml_escape_seq(enc_norm)
            + xml_after_enc() + key + xml_secured_tail()
    };
    let post = xml_after_name() + hex + xml_after_hex() + ssid_esc + tail;
    assert(xml =~= xml_head() + name + post);
    assert(xml_head().subrange(xml_head().len() - 9, xml_head().len() as int) =~= "\n  <name>"@);
    assert(post.subrange(0, 22) =~= "</name>\n  <SSIDConfig>"@);
    lemma_xml_escape_reads_back(profile_name);
    if let Some(p) = password {
        if !open {
            let pre2 = xml_head() + name + xml_after_name() + hex + xml_after_hex() + ssid_esc
                + xml_secured_mid() + xml_escape_seq(auth_norm) + xml_after_auth() + xml_escape_seq(
                enc_norm,
            ) + xml_after_enc();
            assert(xml =~= pre2 + key + xml_secured_tail());
            assert(pre2.subrange(pre2.len() - 13, pre2.len() as int) =~= "<keyMaterial>"@);
            assert(xml_secured_tail().subrange(0, 14) =~= "</keyMaterial>"@);
            lemma_xml_escape_reads_back(p);
        }
    }
}

pub open spec fn spec_profile_autoconnect(xml: Seq<char>) -> bool {
    lowered_profile_autoconnect(ascii_lower(xml))
}

/// `spec_profile_autoconnect` on the already lowered text.
pub open spec fn lowered_profile_autoconnect(lower: Seq<char>) -> bool {
    match first_occurrence(lower, "<connectionmode>"@) {
        Some(start) => match first_occurrence(lower.skip(start), "</connectionmode>"@) {
            Some(end) => trim(lower.subrange(start + "<connectionmode>"@.len(), start + end))
                == "auto"@,
            None => true,
        },
        None => true,
    }
}

proof fn lemma_close_tag_after_open(s: Seq<char>, end: int)
    requires
        occurs_at(s, "</connectionmode>"@, end),
        occurs_at(s, "<connectionmode>"@, 0),
    ensures
        end >= "<connectionmode>"@.len(),
{
    reveal_strlit("</connectionmode>");
    reveal_strlit("<connectionmode>");
    if end < 16 {
        assert(s.subrange(end, end + 17)[0] == s[end]);
        assert(s[end] == '<');
        assert(s.subrange(0, 16)[end] == s[end]);
        if 0 < end {
            assert(false);
        } else {
            assert(s.subrange(end, end + 17)[1] == s[1]);
            assert(s[1] == '/');
            assert(s.subrange(0, 16)[1] == 'c');
        }
    }
}

pub fn parse_profile_autoconnect(xml: &str) -> (r: bool)
    ensures
        r == spec_profile_autoconnect(xml@),
{
    let v = chars_of(xml);
    let lower = lower_vec(v.as_slice());
    let open_tag = lit_vec("<connectionmode>");
    let close_tag = lit_vec("</connectionmode>");
    match find_chars(lower.as_slice(), open_tag.as_slice()) {
        Some(start) => {
            let rest = slice_vec(lower.as_slice(), start, lower.len());
            assert(rest@ == lower@.skip(start as int));
            match find_chars(rest.as_slice(), close_tag.as_slice()) {
                Some(end) => {
                    proof {
                        assert(occurs_at(rest@, open_tag@, 0)) by {
                            assert(rest@.subrange(0, open_tag@.len() as int) =~= lower@.subrange(
                                start as int,
                                start + open_tag@.len(),
                            ));
                        }
                        lemma_close_tag_after_open(rest@, end as int);
                    }
                    let inner = slice_vec(lower.as_slice(), start + open_tag.len(), start + end);
                    let t = trim_chars(inner.as_slice());
                    is_lit(t.as_slice(), "auto")
                },
                None => true,
            }
        },
        None => true,
    }
}

/// The profile with its connection mode set: the text of an existing
/// `<connectionMode>` element replaced, or a new element inserted after
/// `</connectionType>`, else after the first `</name>`, else at the end.
pub open spec fn spec_set_connection_mode(xml: Seq<char>, enabled: bool) -> Seq<char> {
    let desired = if enabled {
        "auto"@
    } else {
        "manual"@
    };
    let insertion = "\n    <connectionMode>"@ + desired + "</connectionMode>"@;
    match first_occurrence(xml, "<connectionMode>"@) {
        Some(start) if first_occurrence(xml.skip(start), "</connectionMode>"@) is Some => {
            let end = start + first_occurrence(xml.skip(start), "</connectionMode>"@)->0;
            xml.take(start + "<connectionMode>"@.len()) + desired + xml.skip(end)
        },
        _ => match first_occurrence(xml, "</connectionType>"@) {
            Some(ct) => {
                let pos = ct + "</connectionType>"@.len();
                xml.take(pos) + insertion + xml.skip(pos)
            },
            None => match first_occurrence(xml, "</name>"@) {
                Some(n) => {
                    let pos = n + "</name>"@.len();
                    xml.take(pos) + insertion + xml.skip(pos)
                },
                None => xml + insertion,
            },
        },
    }
}

fn insert_at(xml: &[char], pos: usize, insertion: &[char]) -> (r: Vec<char>)
    requires
        pos <= xml.len(),
    ensures
        r@ == xml@.take(pos as int) + insertion@ + xml@.skip(pos as int),
{
    let mut out = slice_vec(xml, 0, pos);
    push_all(&mut out, insertion);
    let tail = slice_vec(xml, pos, xml.len());
    push_all(&mut out, tail.as_slice());
    assert(xml@.subrange(0, pos as int) == xml@.take(pos as int));
    assert(xml@.subrange(pos as int, xml.len() as int) == xml@.skip(pos as int));
    out
}

/// The profile with the text of its `<connectionMode>` element replaced, if
/// it has one.
fn replace_mode_text(x: &[char], desired: &[char]) -> (r: Option<Vec<char>>)
    ensures
        match first_occurrence(x@, "<connectionMode>"@) {
            Some(start) if first_occurrence(x@.skip(start), "</connectionMode>"@) is Some => {
                let end = start + first_occurrence(x@.skip(start), "</connectionMode>"@)->0;
                r matches Some(v) && v@ == x@.take(start + "<connectionMode>"@.len()) + desired@
                    + x@.skip(end)
            },
            _ => r is None,
        },
{
    let open_tag = lit_vec("<connectionMode>");
    let close_tag = lit_vec("</connectionMode>");
    match find_chars(x, open_tag.as_slice()) {
        Some(start) => {
            assert(occurs_at(x@, open_tag@, start as int));
            let rest = slice_vec(x, start, x.len());
            assert(rest@ == x@.skip(start as int));
            match find_chars(rest.as_slice(), close_tag.as_slice()) {
                Some(end) => {
                    assert(occurs_at(rest@, close_tag@, end as int));
                    let end_abs = start + end;
                    let mut out = slice_vec(x, 0, start + open_tag.len());
                    push_all(&mut out, desired);
                    let after = slice_vec(x, end_abs, x.len());
                    push_all(&mut out, after.as_slice());
                    assert(x@.subrange(0, start + open_tag.len()) == x@.take(
                        start + open_tag.len(),
                    ));
                    assert(x@.subrange(end_abs as int, x.len() as int) == x@.skip(end_abs as int));
                    Some(out)
                },
                None => None,
            }
        },
        None => None,
    }
}

/// A new `<connectionMode>` element placed after `</connectionType>`, else
/// after the first `</name>`, else at the end.
fn insert_mode_element(x: &[char], desired: &[char]) -> (r: Vec<char>)
    ensures
        ({
            let insertion = "\n    <connectionMode>"@ + desired@ + "</connectionMode>"@;
            r@ == match first_occurrence(x@, "</connectionType>"@) {
                Some(ct) => {
                    let pos = ct + "</connectionType>"@.len();
                    x@.take(pos) + insertion + x@.skip(pos)
                },
                None => match first_occurrence(x@, "</name>"@) {
                    Some(n) => {
                        let pos = n + "</name>"@.len();
                        x@.take(pos) + insertion + x@.skip(pos)
                    },
                    None => x@ + insertion,
                },
            }
        }),
{
    let mut insertion = lit_vec("\n    <connectionMode>");
    push_all(&mut insertion, desired);
    push_str_chars(&mut insertion, "</connectionMode>");
    let ct = lit_vec("</connectionType>");
    match find_after(x, ct.as_slice()) {
        Some(pos) => {
            return insert_at(x, pos, insertion.as_slice());
        },
        None => {},
    }
    let name_close = lit_vec("</name>");
    match find_after(x, name_close.as_slice()) {
        Some(pos) => insert_at(x, pos, insertion.as_slice()),
        None => {
            let mut out = slice_vec(x, 0, x.len());
            assert(out@ == x@);
            push_all(&mut out, insertion.as_slice());
            out
        },
    }
}

pub fn set_profile_connection_mode(xml: &str, enabled: bool) -> (r: String)
    ensures
        r@ == spec_set_connection_mode(xml@, enabled),
{
    let x = chars_of(xml);
    let desired = if enabled {
        lit_vec("auto")
    } else {
        lit_vec("manual")
    };
    match replace_mode_text(x.as_slice(), desired.as_slice()) {
        Some(out) => string_of(out.as_slice()),
        None => {
            let out = insert_mode_element(x.as_slice(), desired.as_slice());
            string_of(out.as_slice())
        },
    }
}

// ---------------------------------------------------------------------------
// Reading back a connection mode that was set
// ---------------------------------------------------------------------------
proof fn lemma_lower_concat(a: Seq<char>, b: Seq<char>)
    ensures
        ascii_lower(a + b) == ascii_lower(a) + ascii_lower(b),
{
    assert(ascii_lower(a + b) =~= ascii_lower(a) + ascii_lower(b));
}

proof fn lemma_lower_subrange(s: Seq<char>, i: int, j: int)
    requires
        0 <= i <= j <= s.len(),
    ensures
        ascii_lower(s).subrange(i, j) == ascii_lower(s.subrange(i, j)),
{
    assert(ascii_lower(s).subrange(i, j) =~= ascii_lower(s.subrange(i, j)));
}

/// The element texts that the connection mode is written with, lowered.
proof fn lemma_lower_mode_literals()
    ensures
        ascii_lower("<connectionMode>"@) == "<connectionmode>"@,
        ascii_lower("</connectionMode>"@) == "</connectionmode>"@,
        ascii_lower("\n    <connectionMode>"@) == "\n    <connectionmode>"@,
        ascii_lower("auto"@) == "auto"@,
        ascii_lower("manual"@) == "manual"@,
{
    reveal_strlit("<connectionMode>");
    reveal_strlit("<connectionmode>");
    reveal_strlit("</connectionMode>");
    reveal_strlit("</connectionmode>");
    reveal_strlit("\n    <connectionMode>");
    reveal_strlit("\n    <connectionmode>");
    reveal_strlit("auto");
    reveal_strlit("manual");
    assert(ascii_lower("<connectionMode>"@) =~= "<connectionmode>"@);
    assert(ascii_lower("</connectionMode>"@) =~= "</connectionmode>"@);
    assert(ascii_lower("\n    <connectionMode>"@) =~= "\n    <connectionmode>"@);
    assert(ascii_lower("auto"@) =~= "auto"@);
    assert(ascii_lower("manual"@) =~= "manual"@);
}

/// A character of `s` that `p` never holds keeps `p` from occurring
/// anywhere across it.
proof fn lemma_blocked(s: Seq<char>, p: Seq<char>, m: int)
    requires
        0 <= m < s.len(),
        forall|k: int| 0 <= k < p.len() ==> p[k] != s[m],
    ensures
        forall|j: int| j <= m < j + p.len() ==> !#[trigger] occurs_at(s, p, j),
{
    assert forall|j: int| j <= m < j + p.len() implies !occurs_at(s, p, j) by {
        if occurs_at(s, p, j) {
            assert(s.subrange(j, j + p.len())[m - j] == s[m]);
        }
    }
}

/// After an opening tag, a value without `<` and the closing tag, the first
/// closing tag is the one right after the value.
proof fn lemma_close_tag_first(rest: Seq<char>, d: Seq<char>)
    requires
        forall|k: int| 0 <= k < d.len() ==> d[k] != '<',
        rest.len() >= 33 + d.len(),
        rest.subrange(0, 33 + d.len() as int) == "<connectionmode>"@ + d + "</connectionmode>"@,
    ensures
        first_occurrence(rest, "</connectionmode>"@) == Some(16 + d.len() as int),
{
    reveal_strlit("<connectionmode>");
    reveal_strlit("</connectionmode>");
    let o = "<connectionmode>"@;
    let c = "</connectionmode>"@;
    let block = o + d + c;
    let n: int = 33 + d.len() as int;
    let e: int = 16 + d.len() as int;
    assert forall|k: int| 0 <= k < n implies rest[k] == block[k] by {
        assert(rest.subrange(0, n)[k] == rest[k]);
    }
    assert(occurs_at(rest, c, e)) by {
        assert(rest.subrange(e, e + 17) =~= c);
    }
    assert forall|j: int| 0 <= j < e implies !occurs_at(rest, c, j) by {
        if occurs_at(rest, c, j) {
            assert(rest.subrange(j, j + 17)[0] == rest[j]);
            if j == 0 {
                assert(rest.subrange(j, j + 17)[1] == rest[1]);
                assert(rest[1] == block[1]);
            } else if j < 16 {
                assert(rest[j] == block[j]);
                assert(block[j] == o[j]);
            } else {
                assert(rest[j] == block[j]);
                assert(block[j] == d[j - 16]);
            }
        }
    }
    lemma_first_occurrence_is(rest, c, e);
}

/// `auto` and `manual` hold no `<` and no white space at their ends.
proof fn lemma_mode_words(d: Seq<char>)
    requires
        d == "auto"@ || d == "manual"@,
    ensures
        forall|k: int| 0 <= k < d.len() ==> d[k] != '<',
        trim(d) == d,
        (d == "auto"@) == (d.len() == 4),
{
    reveal_strlit("auto");
    reveal_strlit("manual");
    assert(lead_ws(d) == 0);
    assert(trail_ws(d) == 0);
    assert(trim(d) =~= d);
}

/// The value between the tags of an element spelled out at `start`.
proof fn lemma_mode_value_window(lr: Seq<char>, start: int, d: Seq<char>)
    requires
        0 <= start,
        start + 33 + d.len() <= lr.len(),
        lr.subrange(start, start + 33 + d.len()) == "<connectionmode>"@ + d
            + "</connectionmode>"@,
    ensures
        lr.subrange(start + 16, start + 16 + d.len()) == d,
        lr.skip(start).subrange(0, 33 + d.len() as int) == "<connectionmode>"@ + d
            + "</connectionmode>"@,
{
    reveal_strlit("<connectionmode>");
    let n: int = 33 + d.len() as int;
    let w = lr.subrange(start, start + n);
    assert(w.subrange(16, 16 + d.len() as int) =~= d);
    assert(lr.subrange(start + 16, start + 16 + d.len()) =~= w.subrange(16, 16 + d.len() as int));
    assert(lr.skip(start).subrange(0, n) =~= w);
}

/// An opening tag followed by `d` and the closing tag: the first closing tag
/// after the opening one ends `d`.
proof fn lemma_mode_element(lr: Seq<char>, start: int, d: Seq<char>)
    requires
        0 <= start,
        start + 33 + d.len() <= lr.len(),
        lr.subrange(start, start + 33 + d.len()) == "<connectionmode>"@ + d
            + "</connectionmode>"@,
        d == "auto"@ || d == "manual"@,
    ensures
        first_occurrence(lr.skip(start), "</connectionmode>"@) == Some(16 + d.len() as int),
        lr.subrange(start + 16, start + 16 + d.len()) == d,
        trim(d) == d,
        (d == "auto"@) == (d.len() == 4),
{
    lemma_mode_words(d);
    lemma_mode_value_window(lr, start, d);
    lemma_close_tag_first(lr.skip(start), d);
}

/// Where the first `<connectionmode>` of the lowered profile is followed by
/// `d` and the closing tag, the profile reads as automatic exactly when `d`
/// is `auto`.
proof fn lemma_mode_read(lr: Seq<char>, start: int, d: Seq<char>)
    requires
        first_occurrence(lr, "<connectionmode>"@) == Some(start),
        0 <= start,
        start + 33 + d.len() <= lr.len(),
        lr.subrange(start, start + 33 + d.len()) == "<connectionmode>"@ + d
            + "</connectionmode>"@,
        d == "auto"@ || d == "manual"@,
    ensures
        lowered_profile_autoconnect(lr) == (d == "auto"@),
{
    lemma_mode_element(lr, start, d);
    lemma_mode_value(lr, start, d);
}

#[verifier::rlimit(60)]
proof fn lemma_mode_value(lr: Seq<char>, start: int, d: Seq<char>)
    requires
        first_occurrence(lr, "<connectionmode>"@) == Some(start),
        first_occurrence(lr.skip(start), "</connectionmode>"@) == Some(16 + d.len() as int),
        lr.subrange(start + 16, start + 16 + d.len()) == d,
        trim(d) == d,
    ensures
        lowered_profile_autoconnect(lr) == (d == "auto"@),
{
    assert("<connectionmode>"@.len() == 16) by {
        reveal_strlit("<connectionmode>");
    }
    let inner = lr.subrange(start + "<connectionmode>"@.len(), start + 16 + d.len());
    assert(inner == d);
    assert(trim(inner) == d);
}

/// The lowered profile after a new element was put in at `pos`.
proof fn lemma_lower_inserted(xml: Seq<char>, pos: int, d: Seq<char>)
    requires
        0 <= pos <= xml.len(),
        d == "auto"@ || d == "manual"@,
    ensures
        ascii_lower(xml.take(pos) + ("\n    <connectionMode>"@ + d + "</connectionMode>"@)
            + xml.skip(pos)) == ascii_lower(xml).take(pos) + ("\n    <connectionmode>"@ + d
            + "</connectionmode>"@) + ascii_lower(xml).skip(pos),
{
    let ins = "\n    <connectionMode>"@ + d + "</connectionMode>"@;
    lemma_lower_mode_literals();
    lemma_lower_concat("\n    <connectionMode>"@, d);
    lemma_lower_concat("\n    <connectionMode>"@ + d, "</connectionMode>"@);
    lemma_lower_concat(xml.take(pos), ins);
    lemma_lower_concat(xml.take(pos) + ins, xml.skip(pos));
    lemma_lower_subrange(xml, 0, pos);
    lemma_lower_subrange(xml, pos, xml.len() as int);
    assert(xml.take(pos) == xml.subrange(0, pos));
    assert(xml.skip(pos) == xml.subrange(pos, xml.len() as int));
    assert(ascii_lower(xml).take(pos) == ascii_lower(xml).subrange(0, pos));
    assert(ascii_lower(xml).skip(pos) == ascii_lower(xml).subrange(pos, xml.len() as int));
}

/// The lowered element put in at `pos` spans the opening tag, the value and
/// the closing tag, after a line break and four spaces.
proof fn lemma_inserted_window(l: Seq<char>, pos: int, d: Seq<char>)
    requires
        0 <= pos <= l.len(),
        d == "auto"@ || d == "manual"@,
    ensures
        ({
            let lr = l.take(pos) + ("\n    <connectionmode>"@ + d + "</connectionmode>"@)
                + l.skip(pos);
            &&& pos + 5 + 33 + d.len() <= lr.len()
            &&& lr.subrange(pos + 5, pos + 5 + 33 + d.len()) == "<connectionmode>"@ + d
                + "</connectionmode>"@
            &&& lr[pos] == '\n'
            &&& forall|m: int| pos < m < pos + 5 ==> lr[m] == ' '
            &&& lr.take(pos) == l.take(pos)
        }),
{
    reveal_strlit("<connectionmode>");
    reveal_strlit("\n    <connectionmode>");
    reveal_strlit("</connectionmode>");
    let o = "<connectionmode>"@;
    let lins = "\n    <connectionmode>"@ + d + "</connectionmode>"@;
    let lr = l.take(pos) + lins + l.skip(pos);
    let n: int = 33 + d.len() as int;
    assert forall|k: int| 0 <= k < n implies lr.subrange(pos + 5, pos + 5 + n)[k] == (o + d
        + "</connectionmode>"@)[k] by {
        assert(lr[pos + 5 + k] == lins[5 + k]);
    }
    assert(lr.subrange(pos + 5, pos + 5 + n) =~= o + d + "</connectionmode>"@);
    assert(lr.take(pos) =~= l.take(pos));
}

/// Before position `pos` the lowered text with the element put in agrees
/// with the text without it, so `<connectionmode>` does not occur there.
proof fn lemma_no_open_in_prefix(l: Seq<char>, lr: Seq<char>, pos: int)
    requires
        0 <= pos <= l.len(),
        pos <= lr.len(),
        lr.take(pos) == l.take(pos),
        !contains(l, "<connectionmode>"@),
    ensures
        forall|j: int| 0 <= j && j + 16 <= pos ==> !occurs_at(lr, "<connectionmode>"@, j),
{
    reveal_strlit("<connectionmode>");
    assert forall|j: int| 0 <= j && j + 16 <= pos implies !occurs_at(lr, "<connectionmode>"@, j) by {
        if occurs_at(lr, "<connectionmode>"@, j) {
            assert(lr.subrange(j, j + 16) =~= lr.take(pos).subrange(j, j + 16));
            assert(l.subrange(j, j + 16) =~= l.take(pos).subrange(j, j + 16));
            assert(occurs_at(l, "<connectionmode>"@, j));
        }
    }
}

/// In a lowered text without `<connectionmode>`, a new element put in at
/// `pos` holds the first `<connectionmode>`, right after the line break and
/// indentation.
proof fn lemma_first_open_inserted(l: Seq<char>, pos: int, d: Seq<char>)
    requires
        0 <= pos <= l.len(),
        !contains(l, "<connectionmode>"@),
        d == "auto"@ || d == "manual"@,
    ensures
        ({
            let lr = l.take(pos) + ("\n    <connectionmode>"@ + d + "</connectionmode>"@)
                + l.skip(pos);
            &&& first_occurrence(lr, "<connectionmode>"@) == Some(pos + 5)
            &&& pos + 5 + 33 + d.len() <= lr.len()
            &&& lr.subrange(pos + 5, pos + 5 + 33 + d.len()) == "<connectionmode>"@ + d
                + "</connectionmode>"@
        }),
{
    let o = "<connectionmode>"@;
    let lr = l.take(pos) + ("\n    <connectionmode>"@ + d + "</connectionmode>"@) + l.skip(pos);
    lemma_inserted_window(l, pos, d);
    lemma_no_open_in_prefix(l, lr, pos);
    reveal_strlit("<connectionmode>");
    assert(occurs_at(lr, o, pos + 5)) by {
        let w = lr.subrange(pos + 5, pos + 38 + d.len());
        assert(w.subrange(0, 16) =~= o);
        assert(lr.subrange(pos + 5, pos + 21) =~= w.subrange(0, 16));
    }
    lemma_blocked(lr, o, pos);
    assert forall|j: int| 0 <= j < pos + 5 implies !occurs_at(lr, o, j) by {
        if pos < j {
            lemma_blocked(lr, o, j);
        }
    }
    lemma_first_occurrence_is(lr, o, pos + 5);
}

/// A profile without any `<connectionmode>` element (in any case) that gets
/// one put in at `pos` reads back the mode that was put in.
proof fn lemma_read_inserted(xml: Seq<char>, pos: int, d: Seq<char>)
    requires
        0 <= pos <= xml.len(),
        !contains(ascii_lower(xml), "<connectionmode>"@),
        d == "auto"@ || d == "manual"@,
    ensures
        spec_profile_autoconnect(
            xml.take(pos) + ("\n    <connectionMode>"@ + d + "</connectionMode>"@) + xml.skip(
                pos,
            ),
        ) == (d == "auto"@),
{
    let l = ascii_lower(xml);
    lemma_lower_inserted(xml, pos, d);
    lemma_first_open_inserted(l, pos, d);
    let lr = l.take(pos) + ("\n    <connectionmode>"@ + d + "</connectionmode>"@) + l.skip(pos);
    lemma_mode_read(lr, pos + 5, d);
}

/// The mode word that `spec_set_connection_mode` writes.
pub open spec fn mode_word(enabled: bool) -> Seq<char> {
    if enabled {
        "auto"@
    } else {
        "manual"@
    }
}

/// Without a `<connectionMode>` element, setting the mode puts a new element
/// in at some position of the profile.
proof fn lemma_set_inserts(xml: Seq<char>, enabled: bool) -> (pos: int)
    requires
        first_occurrence(xml, "<connectionMode>"@) is None,
    ensures
        0 <= pos <= xml.len(),
        spec_set_connection_mode(xml, enabled) == xml.take(pos) + ("\n    <connectionMode>"@
            + mode_word(enabled) + "</connectionMode>"@) + xml.skip(pos),
{
    let ins = "\n    <connectionMode>"@ + mode_word(enabled) + "</connectionMode>"@;
    lemma_first_occurrence_facts(xml, "</connectionType>"@);
    lemma_first_occurrence_facts(xml, "</name>"@);
    match first_occurrence(xml, "</connectionType>"@) {
        Some(ct) => ct + "</connectionType>"@.len(),
        None => match first_occurrence(xml, "</name>"@) {
            Some(nm) => nm + "</name>"@.len(),
            None => {
                assert(xml.take(xml.len() as int) =~= xml);
                assert(xml.skip(xml.len() as int) =~= Seq::<char>::empty());
                assert(xml + ins =~= xml.take(xml.len() as int) + ins + xml.skip(
                    xml.len() as int,
                ));
                xml.len() as int
            },
        },
    }
}

/// Setting the connection mode of a profile that has no `<connectionMode>`
/// element, in any letter case, and reading it back gives the mode that was
/// set.
pub proof fn lemma_set_mode_then_read_new_element(xml: Seq<char>, enabled: bool)
    requires
        !contains(ascii_lower(xml), "<connectionmode>"@),
    ensures
        spec_profile_autoconnect(spec_set_connection_mode(xml, enabled)) == enabled,
{
    let cm = "<connectionMode>"@;
    lemma_lower_mode_literals();
    if contains(xml, cm) {
        let i = choose|i: int| occurs_at(xml, cm, i);
        reveal_strlit("<connectionMode>");
        lemma_lower_subrange(xml, i, i + 16);
        assert(occurs_at(ascii_lower(xml), "<connectionmode>"@, i));
    }
    lemma_first_occurrence_facts(xml, cm);
    let pos = lemma_set_inserts(xml, enabled);
    lemma_read_inserted(xml, pos, mode_word(enabled));
    assert(mode_word(enabled) == "auto"@ <==> enabled) by {
        reveal_strlit("auto");
        reveal_strlit("manual");
    }
}

/// Where the first lowered occurrence of `lp` is spelled `p`, that is also
/// the first occurrence of `p`.
proof fn lemma_spelled_first(xml: Seq<char>, p: Seq<char>, lp: Seq<char>, s: int)
    requires
        ascii_lower(p) == lp,
        occurs_at(xml, p, s),
        first_occurrence(ascii_lower(xml), lp) == Some(s),
    ensures
        first_occurrence(xml, p) == Some(s),
{
    lemma_first_occurrence_facts(ascii_lower(xml), lp);
    assert forall|j: int| 0 <= j < s implies !occurs_at(xml, p, j) by {
        if occurs_at(xml, p, j) {
            lemma_lower_subrange(xml, j, j + p.len());
            assert(ascii_lower(p).len() == p.len());
            assert(occurs_at(ascii_lower(xml), lp, j));
        }
    }
    lemma_first_occurrence_is(xml, p, s);
}

/// Lowering a profile whose element text was replaced by a lowercase word.
proof fn lemma_lower_replaced(xml: Seq<char>, a: int, b: int, d: Seq<char>)
    requires
        0 <= a <= b <= xml.len(),
        ascii_lower(d) == d,
    ensures
        ascii_lower(xml.take(a) + d + xml.skip(b)) == ascii_lower(xml).take(a) + d + ascii_lower(
            xml,
        ).skip(b),
{
    lemma_lower_concat(xml.take(a), d);
    lemma_lower_concat(xml.take(a) + d, xml.skip(b));
    lemma_lower_subrange(xml, 0, a);
    lemma_lower_subrange(xml, b, xml.len() as int);
    assert(xml.take(a) == xml.subrange(0, a));
    assert(xml.skip(b) == xml.subrange(b, xml.len() as int));
    assert(ascii_lower(xml).take(a) == ascii_lower(xml).subrange(0, a));
    assert(ascii_lower(xml).skip(b) == ascii_lower(xml).subrange(b, xml.len() as int));
}

/// The lowered profile with the element text replaced spells out the
/// element with `d` at `s`.
proof fn lemma_replaced_spelled(l: Seq<char>, s: int, e: int, d: Seq<char>)
    requires
        occurs_at(l, "<connectionmode>"@, s),
        occurs_at(l.skip(s), "</connectionmode>"@, e),
        0 <= s,
        16 <= e,
    ensures
        ({
            let lr = l.take(s + 16) + d + l.skip(s + e);
            &&& s + 33 + d.len() <= lr.len()
            &&& lr.subrange(s, s + 33 + d.len()) == "<connectionmode>"@ + d
                + "</connectionmode>"@
        }),
{
    reveal_strlit("<connectionmode>");
    reveal_strlit("</connectionmode>");
    let o = "<connectionmode>"@;
    let c = "</connectionmode>"@;
    let lr = l.take(s + 16) + d + l.skip(s + e);
    let n: int = 33 + d.len() as int;
    assert(l.skip(s).subrange(e, e + 17) =~= l.subrange(s + e, s + e + 17));
    assert forall|k: int| 0 <= k < n implies lr.subrange(s, s + n)[k] == (o + d + c)[k] by {
        if k < 16 {
            assert(l.subrange(s, s + 16)[k] == l[s + k]);
        } else if k >= 16 + d.len() {
            assert(l.subrange(s + e, s + e + 17)[k - 16 - d.len()] == l[s + e + k - 16
                - d.len()]);
        }
    }
    assert(lr.subrange(s, s + n) =~= o + d + c);
}

/// Two texts that agree on their first `n` characters have the same
/// occurrences of `p` that end by `n`.
proof fn lemma_same_prefix_occurs(a: Seq<char>, b: Seq<char>, n: int, p: Seq<char>)
    requires
        0 <= n <= a.len(),
        n <= b.len(),
        a.take(n) == b.take(n),
    ensures
        forall|j: int| 0 <= j && j + p.len() <= n ==> (#[trigger] occurs_at(a, p, j) == occurs_at(
            b,
            p,
            j,
        )),
{
    assert forall|j: int| 0 <= j && j + p.len() <= n implies (occurs_at(a, p, j) == occurs_at(
        b,
        p,
        j,
    )) by {
        assert(a.subrange(j, j + p.len()) =~= a.take(n).subrange(j, j + p.len()));
        assert(b.subrange(j, j + p.len()) =~= b.take(n).subrange(j, j + p.len()));
    }
}

/// Replacing text after the first `<connectionmode>` keeps it the first.
proof fn lemma_replaced_first(l: Seq<char>, s: int, e: int, d: Seq<char>)
    requires
        occurs_at(l, "<connectionmode>"@, s),
        forall|j: int| 0 <= j < s ==> !occurs_at(l, "<connectionmode>"@, j),
        0 <= s,
        s + 16 <= s + e <= l.len(),
    ensures
        first_occurrence(l.take(s + 16) + d + l.skip(s + e), "<connectionmode>"@) == Some(s),
{
    reveal_strlit("<connectionmode>");
    let o = "<connectionmode>"@;
    let lr = l.take(s + 16) + d + l.skip(s + e);
    assert(lr.take(s + 16) =~= l.take(s + 16));
    lemma_same_prefix_occurs(lr, l, s + 16, o);
    assert(occurs_at(lr, o, s));
    assert forall|j: int| 0 <= j < s implies !occurs_at(lr, o, j) by {
        assert(occurs_at(lr, o, j) == occurs_at(l, o, j));
    }
    lemma_first_occurrence_is(lr, o, s);
}

/// Where a case-insensitive reader finds the element spelled
/// `<connectionMode>` ... `</connectionMode>`, setting the mode replaces the
/// text between those very tags.
#[verifier::rlimit(80)]
#[verifier::spinoff_prover]
proof fn lemma_spelled_element(xml: Seq<char>) -> (se: (int, int))
    requires
        first_occurrence(ascii_lower(xml), "<connectionmode>"@) matches Some(s) && (occurs_at(
            xml,
            "<connectionMode>"@,
            s,
        ) && (first_occurrence(ascii_lower(xml).skip(s), "</connectionmode>"@) matches Some(e)
            && occurs_at(xml.skip(s), "</connectionMode>"@, e))),
    ensures
        first_occurrence(ascii_lower(xml), "<connectionmode>"@) == Some(se.0),
        first_occurrence(ascii_lower(xml).skip(se.0), "</connectionmode>"@) == Some(se.1),
        first_occurrence(xml, "<connectionMode>"@) == Some(se.0),
        first_occurrence(xml.skip(se.0), "</connectionMode>"@) == Some(se.1),
        0 <= se.0,
        16 <= se.1,
        se.0 + se.1 + 17 <= xml.len(),
{
    let l = ascii_lower(xml);
    let s = first_occurrence(l, "<connectionmode>"@)->0;
    let e = first_occurrence(l.skip(s), "</connectionmode>"@)->0;
    lemma_lower_mode_literals();
    reveal_strlit("<connectionMode>");
    reveal_strlit("</connectionMode>");
    lemma_spelled_first(xml, "<connectionMode>"@, "<connectionmode>"@, s);
    lemma_lower_subrange(xml, s, xml.len() as int);
    assert(l.skip(s) =~= l.subrange(s, xml.len() as int));
    assert(xml.skip(s) =~= xml.subrange(s, xml.len() as int));
    lemma_spelled_first(xml.skip(s), "</connectionMode>"@, "</connectionmode>"@, e);
    lemma_first_occurrence_facts(l, "<connectionmode>"@);
    lemma_first_occurrence_facts(l.skip(s), "</connectionmode>"@);
    assert(occurs_at(l.skip(s), "<connectionmode>"@, 0)) by {
        assert(l.skip(s).subrange(0, 16) =~= l.subrange(s, s + 16));
    }
    lemma_close_tag_after_open(l.skip(s), e);
    (s, e)
}

/// Setting the connection mode of a profile whose element, as a
/// case-insensitive reader finds it, is spelled `<connectionMode>` ...
/// `</connectionMode>`, and reading it back gives the mode that was set.
#[verifier::rlimit(80)]
pub proof fn lemma_set_mode_then_read_existing_element(xml: Seq<char>, enabled: bool)
    requires
        first_occurrence(ascii_lower(xml), "<connectionmode>"@) matches Some(s) && (occurs_at(
            xml,
            "<connectionMode>"@,
            s,
        ) && (first_occurrence(ascii_lower(xml).skip(s), "</connectionmode>"@) matches Some(e)
            && occurs_at(xml.skip(s), "</connectionMode>"@, e))),
    ensures
        spec_profile_autoconnect(spec_set_connection_mode(xml, enabled)) == enabled,
{
    let l = ascii_lower(xml);
    let (s, e) = lemma_spelled_element(xml);
    let d = mode_word(enabled);
    assert(spec_set_connection_mode(xml, enabled) == xml.take(s + 16) + d + xml.skip(s + e)) by {
        reveal_strlit("<connectionMode>");
    }
    lemma_lower_mode_literals();
    lemma_lower_replaced(xml, s + 16, s + e, d);
    lemma_first_occurrence_facts(l, "<connectionmode>"@);
    lemma_first_occurrence_facts(l.skip(s), "</connectionmode>"@);
    lemma_replaced_spelled(l, s, e, d);
    lemma_replaced_first(l, s, e, d);
    lemma_mode_read(l.take(s + 16) + d + l.skip(s + e), s, d);
    assert(d == "auto"@ <==> enabled) by {
        reveal_strlit("auto");
        reveal_strlit("manual");
    }
}

// ---------------------------------------------------------------------------
// BSSIDs
// ---------------------------------------------------------------------------
/// Two lowercase hex digits of a byte.
pub open spec fn hex_pair(x: u8) -> Seq<char> {
    pad_left(radix_digits(x as nat, 16, false), 2, '0')
}

/// `aa:bb:cc:dd:ee:ff`, lowercase two-digit hex.
pub open spec fn spec_bssid_string(b: [u8; 6]) -> Seq<char> {
    hex_pair(b[0]) + seq![':'] + hex_pair(b[1]) + seq![':'] + hex_pair(b[2]) + seq![':']
        + hex_pair(b[3]) + seq![':'] + hex_pair(b[4]) + seq![':'] + hex_pair(b[5])
}

fn push_hex_pair(out: &mut Vec<char>, x: u8, colon: bool)
    ensures
        final(out)@ == old(out)@ + (if colon {
            seq![':']
        } else {
            Seq::empty()
        }) + hex_pair(x),
{
    let ghost before = out@;
    if colon {
        out.push(':');
    }
    let ghost mid = out@;
    let hx = hex_padded(x as u64, 2, false);
    push_all(out, hx.as_slice());
    proof {
        if colon {
            assert(mid == before + seq![':']);
        } else {
            assert(mid == before + Seq::<char>::empty());
        }
    }
}

pub fn bssid_to_string(bssid: &[u8; 6]) -> (r: String)
    ensures
        r@ == spec_bssid_string(*bssid),
{
    let mut out: Vec<char> = Vec::new();
    push_hex_pair(&mut out, bssid[0], false);
    push_hex_pair(&mut out, bssid[1], true);
    push_hex_pair(&mut out, bssid[2], true);
    push_hex_pair(&mut out, bssid[3], true);
    push_hex_pair(&mut out, bssid[4], true);
    push_hex_pair(&mut out, bssid[5], true);
    assert(out@ =~= spec_bssid_string(*bssid));
    string_of(out.as_slice())
}

// ---------------------------------------------------------------------------
// Bands and scores
// ---------------------------------------------------------------------------
pub open spec fn spec_band(khz: u32) -> Seq<char> {
    let mhz = khz / 1000;
    if mhz >= 5925 {
        "6G"@
    } else if mhz >= 5000 {
        "5G"@
    } else if mhz >= 2400 {
        "2.4G"@
    } else {
        "unknown"@
    }
}

pub fn band_from_center_freq_khz(khz: u32) -> (r: &'static str)
    ensures
        r@ == spec_band(khz),
{
    let mhz = khz / 1000;
    if mhz >= 5925 {
        "6G"
    } else if mhz >= 5000 {
        "5G"
    } else if mhz >= 2400 {
        "2.4G"
    } else {
        "unknown"
    }
}

pub open spec fn band_bonus(band: Seq<char>) -> int {
    if band == "6G"@ {
        15
    } else if band == "5G"@ {
        10
    } else {
        0
    }
}

pub open spec fn rssi_penalty(rssi: i32) -> int {
    if rssi == i32::MIN {
        0
    } else if rssi < -80 {
        10
    } else if rssi < -70 {
        5
    } else {
        0
    }
}

/// Link quality, plus a band bonus (6G: 15, 5G: 10), 5 for a secured
/// network and 20 for the connected one, minus a penalty for a weak RSSI
/// (below -80: 10, below -70: 5; `i32::MIN` means unknown).
pub open spec fn spec_network_score(
    link_quality: u32,
    band: Seq<char>,
    security_enabled: bool,
    rssi: i32,
    connected: bool,
) -> int {
    link_quality as int + band_bonus(band) + (if security_enabled {
        5int
    } else {
        0int
    }) - rssi_penalty(rssi) + (if connected {
        20int
    } else {
        0int
    })
}

/// Link qualities for which no score computation leaves `i32`.
pub open spec fn quality_in_range(link_quality: u32) -> bool {
    link_quality as int + 40 <= i32::MAX
}

pub fn calculate_network_score(
    link_quality_0_100: u32,
    band: &str,
    security_enabled: bool,
    rssi: i32,
    connected: bool,
) -> (r: i32)
    requires
        quality_in_range(link_quality_0_100),
    ensures
        r as int == spec_network_score(link_quality_0_100, band@, security_enabled, rssi, connected),
{
    let mut score: i32 = link_quality_0_100 as i32;
    if eq_str(band, "6G") {
        score = score + 15;
    } else if eq_str(band, "5G") {
        score = score + 10;
    }
    if security_enabled {
        score = score + 5;
    }
    if rssi != i32::MIN {
        if rssi < -80 {
            score = score - 10;
        } else if rssi < -70 {
            score = score - 5;
        }
    }
    if connected {
        score = score + 20;
    }
    score
}

/// A connected network always outscores the same network unconnected.
pub proof fn lemma_connected_scores_higher(
    link_quality: u32,
    band: Seq<char>,
    security_enabled: bool,
    rssi: i32,
)
    ensures
        spec_network_score(link_quality, band, security_enabled, rssi, true) == spec_network_score(
            link_quality,
            band,
            security_enabled,
            rssi,
            false,
        ) + 20,
{
}

// ---------------------------------------------------------------------------
// BSSID text
// ---------------------------------------------------------------------------
/// `-` replaced by `:`.
pub open spec fn colons(s: Seq<char>) -> Seq<char> {
    s.map_values(|c: char|
        if c == '-' {
            ':'
        } else {
            c
        })
}

pub open spec fn nonempty_part() -> spec_fn(Seq<char>) -> bool {
    |p: Seq<char>| p.len() > 0
}

/// The non-empty fields of a BSSID text: trimmed, `-` read as `:`, ASCII
/// lowercase, split at `:`.
pub open spec fn bssid_parts(s: Seq<char>) -> Seq<Seq<char>> {
    split_on(ascii_lower(colons(trim(s))), ':').filter(nonempty_part())
}

pub open spec fn hex_byte_bad() -> spec_fn(Seq<char>) -> bool {
    |p: Seq<char>| parse_unsigned(p, 16, 255) is None
}

/// The six bytes of a BSSID written as hex pairs separated by `:` or `-`,
/// or the message naming what is wrong: the count of fields, or the first
/// field that is no hex byte.
pub open spec fn spec_parse_bssid(s: Seq<char>) -> Result<Seq<u8>, Seq<char>> {
    let parts = bssid_parts(s);
    if parts.len() != 6 {
        Err("Invalid BSSID format: '"@ + s + "'"@)
    } else {
        match first_index(parts, hex_byte_bad()) {
            Some(i) => Err("Invalid BSSID hex at index "@ + radix_digits(i as nat, 10, false)
                + ": '"@ + parts[i] + "'"@),
            None => Ok(Seq::new(6, |i: int| parse_unsigned(parts[i], 16, 255)->0 as u8)),
        }
    }
}

fn colons_vec(s: &[char]) -> (r: Vec<char>)
    ensures
        r@ == colons(s@),
{
    let mut out: Vec<char> = Vec::new();
    let mut i: usize = 0;
    while i < s.len()
        invariant
            i <= s.len(),
            out@ =~= colons(s@).take(i as int),
        decreases s.len() - i,
    {
        let c = if s[i] == '-' {
            ':'
        } else {
            s[i]
        };
        out.push(c);
        i = i + 1;
        assert(out@ =~= colons(s@).take(i as int));
    }
    out
}

fn nonempty_parts(parts: Vec<Vec<char>>) -> (r: Vec<Vec<char>>)
    ensures
        views(r@) == views(parts@).filter(nonempty_part()),
{
    let ghost pv = views(parts@);
    let mut out: Vec<Vec<char>> = Vec::new();
    let mut i: usize = 0;
    proof {
        assert(pv.take(0).filter(nonempty_part()) =~= seq![]);
    }
    while i < parts.len()
        invariant
            i <= parts.len(),
            pv == views(parts@),
            views(out@) == pv.take(i as int).filter(nonempty_part()),
        decreases parts.len() - i,
    {
        proof {
            assert(pv[i as int] == parts@[i as int]@);
            assert(pv.take(i + 1) =~= pv.take(i as int).push(pv[i as int]));
            pv.take(i as int).lemma_filter_push(pv[i as int], nonempty_part());
        }
        if parts[i].len() > 0 {
            let piece = slice_vec(parts[i].as_slice(), 0, parts[i].len());
            proof {
                assert(parts[i as int]@.subrange(0, parts[i as int]@.len() as int) == parts[i as int]@);
            }
            let ghost before = views(out@);
            out.push(piece);
            proof {
                assert(views(out@) =~= before.push(pv[i as int]));
            }
        }
        i = i + 1;
    }
    proof {
        assert(pv.take(parts.len() as int) =~= pv);
    }
    out
}

pub fn parse_bssid(s: &str) -> (r: Result<[u8; 6], String>)
    ensures
        match spec_parse_bssid(s@) {
            Ok(bytes) => r matches Ok(b) && b@ == bytes,
            Err(msg) => r matches Err(e) && e@ == msg,
        },
{
    let text = chars_of(s);
    let trimmed = trim_chars(text.as_slice());
    let dashed = colons_vec(trimmed.as_slice());
    let lowered = lower_vec(dashed.as_slice());
    let split = split_on_exec(lowered.as_slice(), ':');
    let parts = nonempty_parts(split);
    let ghost pv = views(parts@);
    assert(pv == bssid_parts(s@));
    if parts.len() != 6 {
        let mut msg = chars_of("Invalid BSSID format: '");
        push_str_chars(&mut msg, s);
        push_str_chars(&mut msg, "'");
        return Err(string_of(msg.as_slice()));
    }
    let mut out: [u8; 6] = [0u8; 6];
    let mut i: usize = 0;
    proof {
        lemma_first_index_bounds(pv, hex_byte_bad());
    }
    while i < 6
        invariant
            i <= 6,
            parts.len() == 6,
            pv == views(parts@),
            pv == bssid_parts(s@),
            forall|j: int| 0 <= j < i ==> !(#[trigger] hex_byte_bad())(pv[j]),
            forall|j: int| 0 <= j < i ==> out@[j] as nat == parse_unsigned(#[trigger] pv[j], 16, 255)->0,
            out@.len() == 6,
        decreases 6 - i,
    {
        proof {
            assert(pv[i as int] == parts@[i as int]@);
        }
        match parse_unsigned_exec(parts[i].as_slice(), 16, 255) {
            Some(v) => {
                out[i] = v as u8;
            },
            None => {
                proof {
                    lemma_first_index_is(pv, hex_byte_bad(), i as int);
                }
                let mut msg = chars_of("Invalid BSSID hex at index ");
                let idx = decimal(i as u64);
                push_all(&mut msg, idx.as_slice());
                push_str_chars(&mut msg, ": '");
                push_all(&mut msg, parts[i].as_slice());
                push_str_chars(&mut msg, "'");
                assert(msg@ =~= "Invalid BSSID hex at index "@ + radix_digits(i as nat, 10, false)
                    + ": '"@ + pv[i as int] + "'"@);
                return Err(string_of(msg.as_slice()));
            },
        }
        i = i + 1;
    }
    proof {
        lemma_first_index_none(pv, hex_byte_bad());
        assert(out@ =~= Seq::new(6, |j: int| parse_unsigned(pv[j], 16, 255)->0 as u8));
    }
    Ok(out)
}

// ---------------------------------------------------------------------------
// The round trip on profiles with at most one connection-mode element
// ---------------------------------------------------------------------------
/// How many of the positions below `n` begin an occurrence of `p` in `s`.
pub open spec fn occurrences_below(s: Seq<char>, p: Seq<char>, n: int) -> nat
    decreases n,
{
    if n <= 0 {
        0
    } else {
        occurrences_below(s, p, n - 1) + if occurs_at(s, p, n - 1) {
            1nat
        } else {
            0nat
        }
    }
}

/// How many times `p` occurs in `s` (counted by starting position; the
/// word `connectionmode` cannot overlap itself, so this is also the count
/// of its non-overlapping matches).
pub open spec fn occurrence_count(s: Seq<char>, p: Seq<char>) -> nat {
    occurrences_below(s, p, s.len() as int)
}

proof fn lemma_occurrences_monotone(s: Seq<char>, p: Seq<char>, m: int, n: int)
    requires
        m <= n,
    ensures
        occurrences_below(s, p, m) <= occurrences_below(s, p, n),
    decreases n - m,
{
    if m < n {
        lemma_occurrences_monotone(s, p, m, n - 1);
    }
}

proof fn lemma_occurrence_counted(s: Seq<char>, p: Seq<char>, i: int, n: int)
    requires
        0 <= i < n,
        occurs_at(s, p, i),
    ensures
        occurrences_below(s, p, n) >= occurrences_below(s, p, i) + 1,
{
    lemma_occurrences_monotone(s, p, i + 1, n);
}

proof fn lemma_only_two(s: Seq<char>, p: Seq<char>, a: int, b: int, x: int)
    requires
        p.len() > 0,
        occurrence_count(s, p) == 2,
        a < b,
        occurs_at(s, p, a),
        occurs_at(s, p, b),
        occurs_at(s, p, x),
    ensures
        x == a || x == b,
{
    let n = s.len() as int;
    if x != a && x != b {
        let (i, j, k) = if x < a {
            (x, a, b)
        } else if x < b {
            (a, x, b)
        } else {
            (a, b, x)
        };
        lemma_occurrence_counted(s, p, k, n);
        lemma_occurrence_counted(s, p, j, k);
        lemma_occurrence_counted(s, p, i, j);
    }
}

proof fn lemma_tag_holds_word(l: Seq<char>, i: int, close: bool)
    requires
        close ==> occurs_at(l, "</connectionmode>"@, i),
        !close ==> occurs_at(l, "<connectionmode>"@, i),
    ensures
        occurs_at(l, "connectionmode"@, if close { i + 2 } else { i + 1 }),
{
    reveal_strlit("</connectionmode>");
    reveal_strlit("<connectionmode>");
    reveal_strlit("connectionmode");
    if close {
        assert(l.subrange(i + 2, i + 16) =~= "</connectionmode>"@.subrange(2, 16));
        assert("</connectionmode>"@.subrange(2, 16) =~= "connectionmode"@);
    } else {
        assert(l.subrange(i + 1, i + 15) =~= "<connectionmode>"@.subrange(1, 15));
        assert("<connectionmode>"@.subrange(1, 15) =~= "connectionmode"@);
    }
}

proof fn lemma_lowered_occurrence(xml: Seq<char>, p: Seq<char>, i: int)
    requires
        occurs_at(xml, p, i),
    ensures
        occurs_at(ascii_lower(xml), ascii_lower(p), i),
{
    lemma_lower_subrange(xml, i, i + p.len());
}

/// A profile whose lowercase text names `connectionmode` exactly twice,
/// as one `<connectionMode>` followed later by one `</connectionMode>`.
pub open spec fn single_mode_element(xml: Seq<char>) -> bool {
    &&& occurrence_count(ascii_lower(xml), "connectionmode"@) == 2
    &&& exists|a: int, b: int|
        a < b && #[trigger] occurs_at(xml, "<connectionMode>"@, a) && #[trigger] occurs_at(
            xml,
            "</connectionMode>"@,
            b,
        )
}

#[verifier::spinoff_prover]
#[verifier::rlimit(60)]
proof fn lemma_single_element_found(xml: Seq<char>)
    requires
        single_mode_element(xml),
    ensures
        first_occurrence(ascii_lower(xml), "<connectionmode>"@) matches Some(s) && (occurs_at(
            xml,
            "<connectionMode>"@,
            s,
        ) && (first_occurrence(ascii_lower(xml).skip(s), "</connectionmode>"@) matches Some(e)
            && occurs_at(xml.skip(s), "</connectionMode>"@, e))),
{
    let l = ascii_lower(xml);
    let w = "connectionmode"@;
    let open = "<connectionmode>"@;
    let close = "</connectionmode>"@;
    reveal_strlit("connectionmode");
    reveal_strlit("<connectionmode>");
    reveal_strlit("</connectionmode>");
    lemma_lower_mode_literals();
    let (a, b) = choose|a: int, b: int|
        a < b && #[trigger] occurs_at(xml, "<connectionMode>"@, a) && #[trigger] occurs_at(
            xml,
            "</connectionMode>"@,
            b,
        );
    lemma_lowered_occurrence(xml, "<connectionMode>"@, a);
    lemma_lowered_occurrence(xml, "</connectionMode>"@, b);
    lemma_tag_holds_word(l, a, false);
    lemma_tag_holds_word(l, b, true);
    lemma_first_occurrence_facts(l, open);
    assert(contains(l, open));
    let st = first_occurrence(l, open)->0;
    assert(st <= a);
    lemma_tag_holds_word(l, st, false);
    lemma_only_two(l, w, a + 1, b + 2, st + 1);
    assert(st == a);
    let rest = l.skip(a);
    assert(occurs_at(rest, close, b - a)) by {
        assert(rest.subrange(b - a, b - a + 17) =~= l.subrange(b, b + 17));
    }
    lemma_first_occurrence_facts(rest, close);
    assert(contains(rest, close));
    let e = first_occurrence(rest, close)->0;
    assert(e <= b - a);
    assert(occurs_at(l, close, a + e)) by {
        assert(rest.subrange(e, e + 17) =~= l.subrange(a + e, a + e + 17));
    }
    lemma_tag_holds_word(l, a + e, true);
    lemma_only_two(l, w, a + 1, b + 2, a + e + 2);
    assert(e == b - a);
    assert(occurs_at(xml.skip(a), "</connectionMode>"@, e)) by {
        assert(xml.skip(a).subrange(e, e + "</connectionMode>"@.len()) =~= xml.subrange(
            b,
            b + "</connectionMode>"@.len(),
        ));
    }
}

/// Setting the connection mode of a profile and reading it back gives the
/// mode that was set, for every profile that has no connection-mode element
/// (its lowercase text never names `connectionmode`) or exactly one,
/// written `<connectionMode>` ... `</connectionMode>`.
pub proof fn lemma_set_mode_then_read(xml: Seq<char>, enabled: bool)
    requires
        occurrence_count(ascii_lower(xml), "connectionmode"@) == 0 || single_mode_element(xml),
    ensures
        spec_profile_autoconnect(spec_set_connection_mode(xml, enabled)) == enabled,
{
    let l = ascii_lower(xml);
    if occurrence_count(l, "connectionmode"@) == 0 {
        if contains(l, "<connectionmode>"@) {
            let i = choose|i: int| occurs_at(l, "<connectionmode>"@, i);
            lemma_tag_holds_word(l, i, false);
            reveal_strlit("connectionmode");
            lemma_occurrence_counted(l, "connectionmode"@, i + 1, l.len() as int);
        }
        lemma_set_mode_then_read_new_element(xml, enabled);
    } else {
        lemma_single_element_found(xml);
        lemma_set_mode_then_read_existing_element(xml, enabled);
    }
}

} // verus!
