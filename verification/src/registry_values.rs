//! The values the taskbar keeps under its registry key: the toolbar's hide
//! mode and the list of shortcut keys, as text.
use vstd::prelude::*;

use crate::text::{
    chars_of, eq_str, lemma_index_of_is, push_all, split_on, split_on_exec, string_of, trim,
    trim_chars, views,
};

verus! {

/// When the toolbar hides.
#[derive(Debug, Clone, Copy, PartialEq, Eq, Structural)]
pub enum HideMode {
    Never,
    OnOverlap,
    Always,
}

/// The registry text of a hide mode.
pub open spec fn hide_mode_text(mode: HideMode) -> Seq<char> {
    match mode {
        HideMode::Never => "Never"@,
        HideMode::OnOverlap => "OnOverlap"@,
        HideMode::Always => "Always"@,
    }
}

/// The hide mode a registry text names, if any.
pub open spec fn hide_mode_of(text: Seq<char>) -> Option<HideMode> {
    if text == "Never"@ {
        Some(HideMode::Never)
    } else if text == "OnOverlap"@ {
        Some(HideMode::OnOverlap)
    } else if text == "Always"@ {
        Some(HideMode::Always)
    } else {
        None
    }
}

pub fn hide_mode_registry_text(mode: HideMode) -> (r: &'static str)
    ensures
        r@ == hide_mode_text(mode),
{
    match mode {
        HideMode::Never => "Never",
        HideMode::OnOverlap => "OnOverlap",
        HideMode::Always => "Always",
    }
}

pub fn parse_hide_mode(value: &str) -> (r: Option<HideMode>)
    ensures
        r == hide_mode_of(value@),
{
    if eq_str(value, "Never") {
        Some(HideMode::Never)
    } else if eq_str(value, "OnOverlap") {
        Some(HideMode::OnOverlap)
    } else if eq_str(value, "Always") {
        Some(HideMode::Always)
    } else {
        None
    }
}

/// The hide mode once the registry value (when there is one) is read over
/// the configured one: a value that names no mode leaves it.
pub fn hide_mode_with_registry(configured: HideMode, value: Option<&str>) -> (r: HideMode)
    ensures
        r == match value {
            Some(v) => match hide_mode_of(v@) {
                Some(m) => m,
                None => configured,
            },
            None => configured,
        },
{
    match value {
        Some(v) => match parse_hide_mode(v) {
            Some(m) => m,
            None => configured,
        },
        None => configured,
    }
}

/// Reading back the text written for a hide mode gives that mode.
pub proof fn lemma_hide_mode_round_trip(mode: HideMode)
    ensures
        hide_mode_of(hide_mode_text(mode)) == Some(mode),
{
    reveal_strlit("Never");
    reveal_strlit("OnOverlap");
    reveal_strlit("Always");
    assert("Never"@.len() == 5);
    assert("OnOverlap"@.len() == 9);
    assert("Always"@.len() == 6);
    match mode {
        HideMode::Never => {},
        HideMode::OnOverlap => {
            assert("OnOverlap"@ != "Never"@);
        },
        HideMode::Always => {
            assert("Always"@ != "Never"@);
            assert("Always"@ != "OnOverlap"@);
        },
    }
}

/// A field of the shortcut list, trimmed, when it is not empty.
pub open spec fn shortcut_key_of(field: Seq<char>) -> Option<Seq<char>> {
    if trim(field).len() > 0 {
        Some(trim(field))
    } else {
        None
    }
}

/// The shortcut keys a registry value lists: its comma-separated fields,
/// trimmed, leaving out the empty ones.
pub open spec fn shortcut_keys_of(value: Seq<char>) -> Seq<Seq<char>> {
    split_on(value, ',').filter_map(|f: Seq<char>| shortcut_key_of(f))
}

/// The keys joined with commas.
pub open spec fn joined_with_commas(keys: Seq<Seq<char>>) -> Seq<char>
    decreases keys.len(),
{
    if keys.len() == 0 {
        seq![]
    } else if keys.len() == 1 {
        keys[0]
    } else {
        keys[0] + seq![','] + joined_with_commas(keys.drop_first())
    }
}

pub open spec fn string_views(v: Seq<String>) -> Seq<Seq<char>> {
    v.map_values(|s: String| s@)
}

pub fn parse_shortcut_keys(value: &str) -> (r: Vec<String>)
    ensures
        string_views(r@) == shortcut_keys_of(value@),
{
    let v = chars_of(value);
    let fields = split_on_exec(v.as_slice(), ',');
    let ghost all = views(fields@);
    let ghost f = |x: Seq<char>| shortcut_key_of(x);
    let mut out: Vec<String> = Vec::new();
    let mut i: usize = 0;
    while i < fields.len()
        invariant
            i <= fields.len(),
            all == views(fields@),
            all == split_on(value@, ','),
            f == (|x: Seq<char>| shortcut_key_of(x)),
            string_views(out@) == all.take(i as int).filter_map(f),
        decreases fields.len() - i,
    {
        proof {
            assert(all[i as int] == fields@[i as int]@);
            assert(all.take(i + 1).drop_last() == all.take(i as int));
            assert(all.take(i + 1).last() == all[i as int]);
        }
        let t = trim_chars(fields[i].as_slice());
        if t.len() > 0 {
            let ghost before = string_views(out@);
            out.push(string_of(t.as_slice()));
            proof {
                assert(string_views(out@) =~= before + seq![trim(all[i as int])]);
            }
        } else {
            proof {
                assert(string_views(out@) =~= all.take(i as int).filter_map(f));
            }
        }
        i = i + 1;
    }
    proof {
        assert(all.take(fields.len() as int) == all);
    }
    out
}

pub fn join_shortcut_keys(keys: &Vec<String>) -> (r: String)
    ensures
        r@ == joined_with_commas(string_views(keys@)),
{
    let ghost ks = string_views(keys@);
    let mut out: Vec<char> = Vec::new();
    let mut i: usize = keys.len();
    while i > 0
        invariant
            i <= keys.len(),
            ks == string_views(keys@),
            i < keys.len() ==> out@ == joined_with_commas(ks.skip(i as int)),
            i == keys.len() ==> out@.len() == 0,
        decreases i,
    {
        let k = chars_of(keys[i - 1].as_str());
        let ghost rest = ks.skip(i as int);
        let ghost before = out@;
        let mut part = k;
        if i < keys.len() {
            part.push(',');
            push_all(&mut part, out.as_slice());
        }
        out = part;
        proof {
            let now = ks.skip(i - 1);
            assert(now[0] == ks[i - 1]);
            assert(ks[i - 1] == keys@[i - 1]@);
            assert(now.drop_first() =~= rest);
            if i < keys.len() {
                assert(now.len() > 1);
                assert(out@ =~= now[0] + seq![','] + joined_with_commas(now.drop_first()));
            } else {
                assert(now.len() == 1);
                assert(out@ =~= now[0]);
            }
        }
        i = i - 1;
    }
    proof {
        if keys.len() > 0 {
            assert(ks.skip(0) == ks);
        } else {
            assert(ks.len() == 0);
        }
    }
    string_of(out.as_slice())
}

proof fn lemma_split_joined(keys: Seq<Seq<char>>)
    requires
        keys.len() >= 1,
        forall|i: int| 0 <= i < keys.len() ==> !(#[trigger] keys[i]).contains(','),
    ensures
        split_on(joined_with_commas(keys), ',') == keys,
    decreases keys.len(),
{
    if keys.len() == 1 {
        assert(!keys[0].contains(','));
        assert(split_on(keys[0], ',') == seq![keys[0]]) by {
            reveal(split_on);
        }
        assert(keys =~= seq![keys[0]]);
    } else {
        let head = keys[0];
        let rest = keys.drop_first();
        assert forall|i: int| 0 <= i < rest.len() implies !(#[trigger] rest[i]).contains(',') by {
            assert(rest[i] == keys[i + 1]);
        }
        lemma_split_joined(rest);
        let s = joined_with_commas(keys);
        assert(s == head + seq![','] + joined_with_commas(rest));
        let k = head.len() as int;
        assert(s[k] == ',');
        assert forall|j: int| 0 <= j < k implies s[j] != ',' by {
            assert(s[j] == head[j]);
            if head[j] == ',' {
                assert(head.contains(','));
            }
        }
        lemma_index_of_is(s, ',', k);
        assert(split_on(s, ',') == seq![s.take(k)] + split_on(s.skip(k + 1), ',')) by {
            reveal(split_on);
        }
        assert(s.take(k) =~= head);
        assert(s.skip(k + 1) =~= joined_with_commas(rest));
        assert(seq![head] + rest =~= keys);
    }
}

proof fn lemma_keys_kept(keys: Seq<Seq<char>>)
    requires
        forall|i: int| 0 <= i < keys.len() ==> shortcut_key_of(#[trigger] keys[i]) == Some(keys[i]),
    ensures
        keys.filter_map(|f: Seq<char>| shortcut_key_of(f)) == keys,
    decreases keys.len(),
{
    if keys.len() > 0 {
        let init = keys.drop_last();
        assert forall|i: int| 0 <= i < init.len() implies shortcut_key_of(#[trigger] init[i]) == Some(init[i]) by {
            assert(init[i] == keys[i]);
        }
        lemma_keys_kept(init);
        assert(shortcut_key_of(keys.last()) == Some(keys[keys.len() - 1]));
        assert(init + seq![keys.last()] =~= keys);
    }
}

/// Reading back a written shortcut list gives the same keys, when every key
/// is non-empty, has no white space at either end and no comma.
pub proof fn lemma_shortcut_keys_round_trip(keys: Seq<Seq<char>>)
    requires
        forall|i: int| 0 <= i < keys.len() ==> (#[trigger] keys[i]).len() > 0 && trim(keys[i]) == keys[i]
            && !keys[i].contains(','),
    ensures
        shortcut_keys_of(joined_with_commas(keys)) == keys,
{
    if keys.len() == 0 {
        reveal(split_on);
        let e: Seq<char> = seq![];
        assert(!e.contains(','));
        assert(split_on(e, ',') == seq![e]);
        assert(trim(e).len() == 0);
        let f = |x: Seq<char>| shortcut_key_of(x);
        let one: Seq<Seq<char>> = seq![e];
        assert(one.drop_last() =~= Seq::<Seq<char>>::empty());
        assert(one.last() == e);
        assert(f(e) is None);
        assert(Seq::<Seq<char>>::empty().filter_map(f) =~= Seq::<Seq<char>>::empty());
        assert(one.filter_map(f) == one.drop_last().filter_map(f));
        assert(one.filter_map(f) =~= keys);
    } else {
        lemma_split_joined(keys);
        lemma_keys_kept(keys);
    }
}

} // verus!
