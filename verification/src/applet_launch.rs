//! Starting the panel's applets.
//!
//! Each applet named in the panel's configuration is started once, from the
//! first desktop entry whose file is named after it. The entry's
//! `X-Overflow*`, `X-MinimizeApplet`, `X-CosmicHoverPopup`,
//! `X-NotificationsApplet` and `X-HostWaylandDisplay` keys say how the panel
//! treats the applet; only one applet per panel, the first with the highest
//! minimize priority, becomes the minimize applet. The applet's command line
//! is split as a shell would, and its environment and, for a Flatpak, its
//! arguments carry the panel's settings and its Wayland socket.

use vstd::prelude::*;
use crate::panel_space::{ClientShrinkSize, AppletAutoClickAnchor, auto_click_anchor_of};

verus! {

/// Whether a character is an ASCII digit.
pub open spec fn is_digit(c: char) -> bool {
    '0' <= c && c <= '9'
}

/// Whether every character is an ASCII digit.
pub open spec fn all_digits(d: Seq<char>) -> bool {
    forall|i: int| 0 <= i < d.len() ==> is_digit(#[trigger] d[i])
}

/// The value of a string of ASCII digits read as a decimal number.
pub open spec fn digits_value(s: Seq<char>) -> int
    decreases s.len(),
{
    if s.len() == 0 { 0 } else { digits_value(s.drop_last()) * 10 + ((s.last() as u32) - ('0' as u32)) }
}

/// The number a string denotes as `u32` text: an optional `+` and then one
/// or more ASCII digits, of a value that fits; nothing else.
pub open spec fn decimal_u32(s: Seq<char>) -> Option<u32> {
    let d = if s.len() > 0 && s[0] == '+' { s.drop_first() } else { s };
    if d.len() > 0 && all_digits(d) && digits_value(d) <= u32::MAX {
        Some(digits_value(d) as u32)
    } else {
        None
    }
}

proof fn lemma_digits_nonneg(d: Seq<char>)
    requires
        forall|i: int| 0 <= i < d.len() ==> is_digit(#[trigger] d[i]),
    ensures
        digits_value(d) >= 0,
    decreases d.len(),
{
    if d.len() > 0 {
        lemma_digits_nonneg(d.drop_last());
        assert(is_digit(d[d.len() - 1]));
    }
}

proof fn lemma_digits_prefix(d: Seq<char>, k: int)
    requires
        0 <= k <= d.len(),
        forall|i: int| 0 <= i < d.len() ==> is_digit(#[trigger] d[i]),
    ensures
        digits_value(d.take(k)) <= digits_value(d),
    decreases d.len(),
{
    if k == d.len() {
        assert(d.take(k) =~= d);
    } else {
        let e = d.drop_last();
        assert(e.take(k) =~= d.take(k));
        lemma_digits_prefix(e, k);
        lemma_digits_nonneg(e);
        assert(is_digit(d[d.len() - 1]));
    }
}

/// The number that `s` denotes as `u32` text, as [`decimal_u32`] says; the
/// reading `str::parse::<u32>` gives.
fn parse_u32(s: &str) -> (res: Option<u32>)
    ensures
        res == decimal_u32(s@),
{
    let n = s.unicode_len();
    let mut i: usize = 0;
    if n > 0 && s.get_char(0) == '+' {
        i = 1;
    }
    let start = i;
    let ghost d = if s@.len() > 0 && s@[0] == '+' { s@.drop_first() } else { s@ };
    proof {
        assert(d =~= s@.subrange(start as int, n as int));
    }
    if start == n {
        return None;
    }
    let mut v: u64 = 0;
    proof { assert(s@.subrange(start as int, start as int) =~= Seq::<char>::empty()); }
    while i < n
        invariant
            start <= i <= n,
            n == s@.len(),
            d == s@.subrange(start as int, n as int),
            d == (if s@.len() > 0 && s@[0] == '+' { s@.drop_first() } else { s@ }),
            d.len() > 0,
            forall|k: int| start <= k < i ==> is_digit(#[trigger] s@[k]),
            v == digits_value(s@.subrange(start as int, i as int)),
            v <= u32::MAX,
        decreases n - i,
    {
        let c = s.get_char(i);
        if !('0' <= c && c <= '9') {
            proof {
                assert(d[i - start] == s@[i as int]);
                assert(!is_digit(d[i - start]));
                assert(!all_digits(d));
                assert(decimal_u32(s@) is None);
            }
            return None;
        }
        let dig = (c as u32) - ('0' as u32);
        let ghost pre = s@.subrange(start as int, i as int);
        let ghost next = s@.subrange(start as int, i + 1);
        proof {
            assert(next.drop_last() =~= pre);
            assert(next.last() == c);
        }
        v = v * 10 + dig as u64;
        if v > 0xffff_ffffu64 {
            proof {
                if all_digits(d) {
                    assert(d.take(i + 1 - start) =~= next);
                    lemma_digits_prefix(d, i + 1 - start);
                    assert(digits_value(d) > u32::MAX);
                }
                assert(decimal_u32(s@) is None);
            }
            return None;
        }
        i = i + 1;
    }
    proof {
        assert(s@.subrange(start as int, i as int) =~= d);
        assert forall|k: int| 0 <= k < d.len() implies is_digit(#[trigger] d[k]) by {
            assert(d[k] == s@[start + k]);
        }
    }
    Some(v as u32)
}

/// The desktop-entry keys the panel reads for an applet: its command line,
/// and, as text where present, the keys that say how it is treated.
#[derive(Clone, Debug)]
pub struct DesktopEntryFields {
    pub command: Option<String>,
    pub host_wayland_display: bool,
    pub overflow_min_size: Option<String>,
    pub overflow_priority: Option<String>,
    pub minimize_applet: Option<String>,
    pub hover_popup: Option<String>,
    pub notifications_applet: bool,
}

/// How the panel treats an applet, from its desktop entry.
#[derive(Clone, Debug)]
pub struct ClientSettings {
    pub command: String,
    pub requests_wayland_display: bool,
    pub shrink_min_size: Option<ClientShrinkSize>,
    pub shrink_priority: Option<u32>,
    pub minimize_priority: Option<u32>,
    pub auto_popup_hover_press: Option<AppletAutoClickAnchor>,
    pub is_notification_applet: bool,
}

/// The minimize priority an entry asks for: none without the key, the
/// number it gives, or zero when it gives no number.
pub open spec fn minimize_of(v: Option<Seq<char>>) -> Option<u32> {
    match v {
        None => None,
        Some(x) => match decimal_u32(x) {
            Some(p) => Some(p),
            None => Some(0),
        },
    }
}

/// The hover-popup anchor an entry asks for: none without the key, the
/// anchor it names, or the default one when it names none.
pub open spec fn hover_anchor_of(v: Option<Seq<char>>) -> Option<AppletAutoClickAnchor> {
    match v {
        None => None,
        Some(x) => match auto_click_anchor_of(x) {
            Some(a) => Some(a),
            None => Some(AppletAutoClickAnchor::Auto),
        },
    }
}

/// A number an entry's key gives, if it gives one.
pub open spec fn number_of(v: Option<Seq<char>>) -> Option<u32> {
    match v {
        None => None,
        Some(x) => decimal_u32(x),
    }
}

/// The view of an optional string.
pub open spec fn opt_view(v: Option<String>) -> Option<Seq<char>> {
    match v {
        Some(x) => Some(x@),
        None => None,
    }
}

/// What an entry says of an applet, as text: its command line, whether it
/// asks for the host's Wayland display, its overflow minimum size, its
/// overflow priority, its minimize priority, its hover-popup anchor, and
/// whether it is the notifications applet.
pub struct EntryKeys {
    pub command: Option<Seq<char>>,
    pub host_wayland_display: bool,
    pub overflow_min_size: Option<Seq<char>>,
    pub overflow_priority: Option<Seq<char>>,
    pub minimize_applet: Option<Seq<char>>,
    pub hover_popup: Option<Seq<char>>,
    pub notifications_applet: bool,
}

/// The keys that an entry's fields hold.
pub open spec fn fields_view(f: DesktopEntryFields) -> EntryKeys {
    EntryKeys {
        command: opt_view(f.command),
        host_wayland_display: f.host_wayland_display,
        overflow_min_size: opt_view(f.overflow_min_size),
        overflow_priority: opt_view(f.overflow_priority),
        minimize_applet: opt_view(f.minimize_applet),
        hover_popup: opt_view(f.hover_popup),
        notifications_applet: f.notifications_applet,
    }
}

/// How the panel treats an applet whose entry says `k`; an entry without a
/// command line starts nothing.
pub open spec fn settings_for(k: EntryKeys, res: Option<ClientSettings>) -> bool {
    match k.command {
        None => res is None,
        Some(e) => match res {
            None => false,
            Some(c) => {
                &&& c.command@ == e
                &&& c.requests_wayland_display == k.host_wayland_display
                &&& c.shrink_min_size == match number_of(k.overflow_min_size) {
                    Some(n) => Some(ClientShrinkSize::AppletUnit(n)),
                    None => None,
                }
                &&& c.shrink_priority == number_of(k.overflow_priority)
                &&& c.minimize_priority == minimize_of(k.minimize_applet)
                &&& c.auto_popup_hover_press == hover_anchor_of(k.hover_popup)
                &&& c.is_notification_applet == k.notifications_applet
            },
        },
    }
}

/// How the panel treats an applet whose entry has these fields.
pub open spec fn settings_ok(f: DesktopEntryFields, res: Option<ClientSettings>) -> bool {
    settings_for(fields_view(f), res)
}

fn number_from(v: &Option<String>) -> (res: Option<u32>)
    ensures
        res == number_of(opt_view(*v)),
{
    match v {
        None => None,
        Some(x) => parse_u32(x.as_str()),
    }
}

/// How the panel treats an applet, as [`settings_ok`] says.
pub fn client_settings(f: &DesktopEntryFields) -> (res: Option<ClientSettings>)
    ensures
        settings_ok(*f, res),
{
    let command = match &f.command {
        None => {
            return None;
        },
        Some(e) => e.clone(),
    };
    let shrink_min_size = match number_from(&f.overflow_min_size) {
        Some(n) => Some(ClientShrinkSize::AppletUnit(n)),
        None => None,
    };
    let shrink_priority = number_from(&f.overflow_priority);
    let minimize_priority = match &f.minimize_applet {
        None => None,
        Some(x) => match parse_u32(x.as_str()) {
            Some(p) => Some(p),
            None => Some(0),
        },
    };
    let auto_popup_hover_press = match &f.hover_popup {
        None => None,
        Some(x) => match AppletAutoClickAnchor::parse(x.as_str()) {
            Ok(a) => Some(a),
            Err(_) => Some(AppletAutoClickAnchor::default()),
        },
    };
    Some(ClientSettings {
        command,
        requests_wayland_display: f.host_wayland_display,
        shrink_min_size,
        shrink_priority,
        minimize_priority,
        auto_popup_hover_press,
        is_notification_applet: f.notifications_applet,
    })
}

/// A name for what `freedesktop_desktop_entry` reads from a desktop file:
/// the `(key, value)` pairs of its `[Desktop Entry]` group, each value the
/// unlocalized one, in the order of the keys (none at all where the file has
/// no such group), or none when the text does not decode.
pub uninterp spec fn desktop_entry_pairs(path: Seq<char>, text: Seq<char>, locales: Seq<Seq<char>>) -> Option<Seq<(Seq<char>, Seq<char>)>>;


/// `freedesktop_desktop_entry::DesktopEntry::from_str` on the file's path
/// and text with the given locales; the pairs of the decoded entry's
/// `[Desktop Entry]` group, as [`desktop_entry_pairs`] names them, or none
/// when the text does not decode as a desktop entry.
#[verifier::external_body]
fn parse_desktop_entry(path: &str, text: &str, locales: &Vec<String>) -> (res: Option<Vec<(String, String)>>)
    ensures
        match res {
            Some(v) => desktop_entry_pairs(path@, text@, string_views(locales@)) == Some(pair_views(v@)),
            None => desktop_entry_pairs(path@, text@, string_views(locales@)) is None,
        },
{
    let e = freedesktop_desktop_entry::DesktopEntry::from_str(path, text, Some(locales.as_slice())).ok()?;
    Some(match e.groups.desktop_entry() {
        Some(g) => g.0.iter().map(|(k, (v, _))| (k.clone(), v.clone())).collect(),
        None => Vec::new(),
    })
}

/// The value of the first pair whose key is `key`.
pub open spec fn entry_lookup(pairs: Seq<(Seq<char>, Seq<char>)>, key: Seq<char>) -> Option<Seq<char>>
    decreases pairs.len(),
{
    if pairs.len() == 0 {
        None
    } else if pairs[0].0 == key {
        Some(pairs[0].1)
    } else {
        entry_lookup(pairs.drop_first(), key)
    }
}

/// What a `[Desktop Entry]` group with these pairs says of an applet:
/// `Exec`, whether `X-HostWaylandDisplay` is there, `X-OverflowMinSize`,
/// `X-OverflowPriority`, `X-MinimizeApplet`, `X-CosmicHoverPopup`, and
/// whether `X-NotificationsApplet` is there.
pub open spec fn entry_keys(pairs: Seq<(Seq<char>, Seq<char>)>) -> EntryKeys {
    EntryKeys {
        command: entry_lookup(pairs, "Exec"@),
        host_wayland_display: entry_lookup(pairs, "X-HostWaylandDisplay"@) is Some,
        overflow_min_size: entry_lookup(pairs, "X-OverflowMinSize"@),
        overflow_priority: entry_lookup(pairs, "X-OverflowPriority"@),
        minimize_applet: entry_lookup(pairs, "X-MinimizeApplet"@),
        hover_popup: entry_lookup(pairs, "X-CosmicHoverPopup"@),
        notifications_applet: entry_lookup(pairs, "X-NotificationsApplet"@) is Some,
    }
}

proof fn lemma_lookup_from(pairs: Seq<(Seq<char>, Seq<char>)>, key: Seq<char>, i: int)
    requires
        0 <= i < pairs.len(),
        pairs[i].0 != key,
    ensures
        entry_lookup(pairs.subrange(i, pairs.len() as int), key) == entry_lookup(pairs.subrange(i + 1, pairs.len() as int), key),
{
    assert(pairs.subrange(i, pairs.len() as int).drop_first() =~= pairs.subrange(i + 1, pairs.len() as int));
}

/// The value of the first pair whose key is `key`, as [`entry_lookup`]
/// says.
pub fn entry_value(pairs: &Vec<(String, String)>, key: &String) -> (res: Option<String>)
    ensures
        opt_view(res) == entry_lookup(pair_views(pairs@), key@),
{
    let ghost all = pair_views(pairs@);
    proof { assert(all.subrange(0, all.len() as int) =~= all); }
    let mut i: usize = 0;
    while i < pairs.len()
        invariant
            i <= pairs.len(),
            all == pair_views(pairs@),
            entry_lookup(all, key@) == entry_lookup(all.subrange(i as int, all.len() as int), key@),
        decreases pairs.len() - i,
    {
        if pairs[i].0 == *key {
            proof {
                let rest = all.subrange(i as int, all.len() as int);
                assert(rest[0] == all[i as int]);
            }
            return Some(pairs[i].1.clone());
        }
        proof { lemma_lookup_from(all, key@, i as int); }
        i = i + 1;
    }
    proof { assert(all.subrange(i as int, all.len() as int).len() == 0); }
    None
}

/// The fields the panel reads from a `[Desktop Entry]` group with these
/// pairs, as [`entry_keys`] says.
pub fn entry_fields(pairs: &Vec<(String, String)>) -> (res: DesktopEntryFields)
    ensures
        fields_view(res) == entry_keys(pair_views(pairs@)),
{
    let command = entry_value(pairs, &String::from_str("Exec"));
    let host = entry_value(pairs, &String::from_str("X-HostWaylandDisplay"));
    let overflow_min_size = entry_value(pairs, &String::from_str("X-OverflowMinSize"));
    let overflow_priority = entry_value(pairs, &String::from_str("X-OverflowPriority"));
    let minimize_applet = entry_value(pairs, &String::from_str("X-MinimizeApplet"));
    let hover_popup = entry_value(pairs, &String::from_str("X-CosmicHoverPopup"));
    let notifications = entry_value(pairs, &String::from_str("X-NotificationsApplet"));
    DesktopEntryFields {
        command,
        host_wayland_display: host.is_some(),
        overflow_min_size,
        overflow_priority,
        minimize_applet,
        hover_popup,
        notifications_applet: notifications.is_some(),
    }
}

/// How the panel treats an applet whose desktop file at `path` holds
/// `text`, read with the given locales: none when the text does not decode
/// as a desktop entry, otherwise as [`settings_for`] says of what its
/// `[Desktop Entry]` group holds.
pub fn applet_settings_from_text(path: &String, text: &String, locales: &Vec<String>) -> (res: Option<ClientSettings>)
    ensures
        match desktop_entry_pairs(path@, text@, string_views(locales@)) {
            None => res is None,
            Some(p) => settings_for(entry_keys(p), res),
        },
{
    match parse_desktop_entry(path.as_str(), text.as_str(), locales) {
        None => None,
        Some(pairs) => {
            let f = entry_fields(&pairs);
            client_settings(&f)
        },
    }
}

/// Whether a client position is among the pairs already made.
pub open spec fn taken(pairs: Seq<(usize, usize)>, i: int) -> bool {
    exists|k: int| 0 <= k < pairs.len() && pairs[k].0 == i
}

/// The first of the first `n` applets named `stem` that no pair has taken.
pub open spec fn first_free(names: Seq<Seq<char>>, stem: Seq<char>, pairs: Seq<(usize, usize)>, n: int) -> Option<int>
    decreases n,
{
    if n <= 0 {
        None
    } else {
        match first_free(names, stem, pairs, n - 1) {
            Some(i) => Some(i),
            None => if names[n - 1] == stem && !taken(pairs, n - 1) { Some(n - 1) } else { None },
        }
    }
}

/// Matching desktop files to applets, file by file: a file named after an
/// applet not yet matched is paired with the first such applet. The pairs
/// `(applet, file)`, in the files' order.
pub open spec fn match_files(names: Seq<Seq<char>>, stems: Seq<Option<Seq<char>>>) -> Seq<(usize, usize)>
    decreases stems.len(),
{
    if stems.len() == 0 {
        seq![]
    } else {
        let prev = match_files(names, stems.drop_last());
        match stems.last() {
            None => prev,
            Some(st) => match first_free(names, st, prev, names.len() as int) {
                Some(i) => prev.push((i as usize, (stems.len() - 1) as usize)),
                None => prev,
            },
        }
    }
}

/// The views of a sequence of strings.
pub open spec fn string_views(v: Seq<String>) -> Seq<Seq<char>> {
    v.map_values(|s: String| s@)
}

/// The views of a sequence of optional strings.
pub open spec fn option_views(v: Seq<Option<String>>) -> Seq<Option<Seq<char>>> {
    v.map_values(|s: Option<String>| match s { Some(x) => Some(x@), None => None })
}

proof fn lemma_first_free_prefix(names: Seq<Seq<char>>, stem: Seq<char>, pairs: Seq<(usize, usize)>, n: int, m: int)
    requires
        0 <= n <= m,
        first_free(names, stem, pairs, n) is Some,
    ensures
        first_free(names, stem, pairs, m) == first_free(names, stem, pairs, n),
    decreases m - n,
{
    if m > n {
        lemma_first_free_prefix(names, stem, pairs, n, m - 1);
    }
}

proof fn lemma_first_free_none(names: Seq<Seq<char>>, stem: Seq<char>, pairs: Seq<(usize, usize)>, n: int)
    requires
        n >= 0,
        forall|j: int| 0 <= j < n ==> !(names[j] == stem && !taken(pairs, j)),
    ensures
        first_free(names, stem, pairs, n) is None,
    decreases n,
{
    if n > 0 {
        lemma_first_free_none(names, stem, pairs, n - 1);
    }
}

proof fn lemma_first_free_bound(names: Seq<Seq<char>>, stem: Seq<char>, pairs: Seq<(usize, usize)>, n: int)
    ensures
        match first_free(names, stem, pairs, n) {
            Some(i) => 0 <= i < n && names[i] == stem && !taken(pairs, i),
            None => true,
        },
    decreases n,
{
    if n > 0 {
        lemma_first_free_bound(names, stem, pairs, n - 1);
    }
}

/// The pairs `(applet, file)` of [`match_files`]; `names` are the applets'
/// names, `stems` the files' names without extension, where they are text.
pub fn match_desktop_files(names: &Vec<String>, stems: &Vec<Option<String>>) -> (res: Vec<(usize, usize)>)
    ensures
        res@ == match_files(string_views(names@), option_views(stems@)),
{
    let ghost nv = string_views(names@);
    let mut used: Vec<bool> = Vec::new();
    let mut u: usize = 0;
    while u < names.len()
        invariant
            u <= names@.len(),
            used@.len() == u,
            forall|j: int| 0 <= j < u ==> !(#[trigger] used@[j]),
        decreases names@.len() - u,
    {
        used.push(false);
        u = u + 1;
    }
    let mut res: Vec<(usize, usize)> = Vec::new();
    let mut s: usize = 0;
    while s < stems.len()
        invariant
            s <= stems@.len(),
            nv == string_views(names@),
            used@.len() == names@.len(),
            res@ == match_files(nv, option_views(stems@).take(s as int)),
            forall|j: int| 0 <= j < names@.len() ==> (#[trigger] used@[j] <==> taken(res@, j)),
        decreases stems@.len() - s,
    {
        let ghost t = option_views(stems@).take(s + 1);
        assert(t.drop_last() =~= option_views(stems@).take(s as int));
        match &stems[s] {
            None => {
                assert(t.last() is None);
            },
            Some(stem) => {
                assert(t.last() == Some(stem@));
                let ghost prev = res@;
                let mut j: usize = 0;
                let mut found: Option<usize> = None;
                while j < names.len()
                    invariant_except_break
                        found is None,
                        forall|x: int| 0 <= x < j ==> !(#[trigger] nv[x] == stem@ && !taken(prev, x)),
                    invariant
                        j <= names@.len(),
                        nv == string_views(names@),
                        used@.len() == names@.len(),
                        res@ == prev,
                        forall|x: int| 0 <= x < names@.len() ==> (#[trigger] used@[x] <==> taken(prev, x)),
                    ensures
                        match found {
                            Some(i) => i < names@.len() && nv[i as int] == stem@ && !taken(prev, i as int)
                                && forall|x: int| 0 <= x < i ==> !(#[trigger] nv[x] == stem@ && !taken(prev, x)),
                            None => forall|x: int| 0 <= x < names@.len() ==> !(#[trigger] nv[x] == stem@ && !taken(prev, x)),
                        },
                    decreases names@.len() - j,
                {
                    assert(nv[j as int] == names@[j as int]@);
                    if !used[j] && names[j].eq(stem) {
                        found = Some(j);
                        break;
                    }
                    j = j + 1;
                }
                match found {
                    Some(i) => {
                        proof {
                            lemma_first_free_none(nv, stem@, prev, i as int);
                            assert(first_free(nv, stem@, prev, i + 1) == Some(i as int));
                            lemma_first_free_prefix(nv, stem@, prev, i + 1, nv.len() as int);
                        }
                        res.push((i, s));
                        used.set(i, true);
                        proof {
                            assert forall|x: int| 0 <= x < names@.len() implies (#[trigger] used@[x] <==> taken(res@, x)) by {
                                if x == i {
                                    assert(res@[res@.len() - 1].0 == i);
                                } else {
                                    if taken(res@, x) {
                                        let k = choose|k: int| 0 <= k < res@.len() && res@[k].0 == x;
                                        assert(k < prev.len());
                                        assert(res@[k] == prev[k]);
                                    }
                                    if taken(prev, x) {
                                        let k = choose|k: int| 0 <= k < prev.len() && prev[k].0 == x;
                                        assert(res@[k] == prev[k]);
                                    }
                                }
                            }
                        }
                    },
                    None => {
                        proof {
                            lemma_first_free_none(nv, stem@, prev, nv.len() as int);
                        }
                    },
                }
            },
        }
        s = s + 1;
    }
    assert(option_views(stems@).take(s as int) =~= option_views(stems@));
    res
}

/// The highest minimize priority any applet asks for, and zero when none
/// does.
pub open spec fn max_minimize(prios: Seq<Option<u32>>) -> u32
    decreases prios.len(),
{
    if prios.len() == 0 {
        0
    } else {
        let m = max_minimize(prios.drop_last());
        match prios.last() {
            Some(p) => if p > m { p } else { m },
            None => m,
        }
    }
}

/// An applet about to start: whether its socket is still there, and the
/// minimize priority it asks for.
#[derive(Clone, Copy, Debug, PartialEq, Eq)]
pub struct MinimizeCandidate {
    pub has_socket: bool,
    pub minimize: Option<u32>,
}

/// Giving the minimize role, applet by applet: an applet whose socket is
/// gone is passed over and keeps what it asked for; the first other applet
/// asking for the highest priority gets it; every other one gets none.
pub open spec fn assign_minimize_spec(cands: Seq<MinimizeCandidate>, max: u32, given: bool) -> Seq<Option<u32>>
    decreases cands.len(),
{
    if cands.len() == 0 {
        seq![]
    } else {
        let c = cands[0];
        if !c.has_socket {
            seq![c.minimize] + assign_minimize_spec(cands.drop_first(), max, given)
        } else if c.minimize == Some(max) && !given {
            seq![Some(max)] + assign_minimize_spec(cands.drop_first(), max, true)
        } else {
            seq![None::<u32>] + assign_minimize_spec(cands.drop_first(), max, given)
        }
    }
}

/// The minimize priority of each applet once the role is given, as
/// [`assign_minimize_spec`] says with the highest priority asked for.
pub fn assign_minimize(cands: &Vec<MinimizeCandidate>) -> (res: Vec<Option<u32>>)
    ensures
        res@ == assign_minimize_spec(cands@, max_minimize(cands@.map_values(|c: MinimizeCandidate| c.minimize)), false),
{
    let ghost prios = cands@.map_values(|c: MinimizeCandidate| c.minimize);
    let mut max: u32 = 0;
    let mut i: usize = 0;
    while i < cands.len()
        invariant
            i <= cands@.len(),
            prios == cands@.map_values(|c: MinimizeCandidate| c.minimize),
            max == max_minimize(prios.take(i as int)),
        decreases cands@.len() - i,
    {
        let ghost t = prios.take(i + 1);
        assert(t.drop_last() =~= prios.take(i as int));
        assert(t.last() == cands@[i as int].minimize);
        match cands[i].minimize {
            Some(p) => {
                if p > max {
                    max = p;
                }
            },
            None => {},
        }
        i = i + 1;
    }
    assert(prios.take(i as int) =~= prios);
    let mut res: Vec<Option<u32>> = Vec::new();
    let mut given = false;
    let mut k: usize = 0;
    let ghost total = assign_minimize_spec(cands@, max, false);
    assert(cands@.subrange(0, cands@.len() as int) =~= cands@);
    assert(res@ + total =~= total);
    while k < cands.len()
        invariant
            k <= cands@.len(),
            res@ + assign_minimize_spec(cands@.subrange(k as int, cands@.len() as int), max, given) == total,
        decreases cands@.len() - k,
    {
        let ghost rest = cands@.subrange(k as int, cands@.len() as int);
        assert(rest.drop_first() =~= cands@.subrange(k + 1, cands@.len() as int));
        let c = cands[k];
        let ghost before = res@;
        let ghost has0 = given;
        let v = if !c.has_socket {
            c.minimize
        } else if c.minimize == Some(max) && !given {
            given = true;
            Some(max)
        } else {
            None
        };
        res.push(v);
        k = k + 1;
        assert(rest[0] == c);
        assert(res@ + assign_minimize_spec(cands@.subrange(k as int, cands@.len() as int), max, given)
            =~= before + (seq![v] + assign_minimize_spec(rest.drop_first(), max, given)));
    }
    assert(cands@.subrange(k as int, cands@.len() as int) =~= Seq::<MinimizeCandidate>::empty());
    assert(res@ =~= res@ + Seq::<Option<u32>>::empty());
    res
}


/// A name for what `shlex::Shlex` yields for a text: its words, split as a
/// POSIX shell splits them, up to the first malformed one.
pub uninterp spec fn shell_words(s: Seq<char>) -> Seq<Seq<char>>;

/// `shlex::Shlex::new(s)`, collected: the words of `s` as
/// [`shell_words`] names them.
#[verifier::external_body]
fn split_shell_words(s: &str) -> (res: Vec<String>)
    ensures
        string_views(res@) == shell_words(s@),
{
    shlex::Shlex::new(s).collect()
}

/// The views of a sequence of string pairs.
pub open spec fn pair_views(v: Seq<(String, String)>) -> Seq<(Seq<char>, Seq<char>)> {
    v.map_values(|p: (String, String)| (p.0@, p.1@))
}

/// The panel's variables an applet gets: all of them, but
/// `WAYLAND_DISPLAY` only for an applet that asks for the host's display.
pub open spec fn passed_env(env: Seq<(Seq<char>, Seq<char>)>, requests_display: bool) -> Seq<(Seq<char>, Seq<char>)>
    decreases env.len(),
{
    if env.len() == 0 {
        seq![]
    } else {
        let rest = passed_env(env.drop_last(), requests_display);
        if !requests_display && env.last().0 == "WAYLAND_DISPLAY"@ { rest } else { rest.push(env.last()) }
    }
}

/// The environment of an applet: whether it is the minimize applet, the
/// panel's size, its privileged socket if it has one, the panel's
/// variables, and its Wayland socket.
pub open spec fn applet_env_spec(
    minimize: bool,
    size: Seq<char>,
    privileged: Option<Seq<char>>,
    env: Seq<(Seq<char>, Seq<char>)>,
    requests_display: bool,
    socket: Seq<char>,
) -> Seq<(Seq<char>, Seq<char>)> {
    seq![("X_MINIMIZE_APPLET"@, if minimize { "true"@ } else { "false"@ }), ("COSMIC_PANEL_SIZE"@, size)]
        + match privileged {
            Some(fd) => seq![("X_PRIVILEGED_WAYLAND_SOCKET"@, fd)],
            None => Seq::<(Seq<char>, Seq<char>)>::empty(),
        }
        + passed_env(env, requests_display)
        + seq![("WAYLAND_SOCKET"@, socket)]
}

fn push_pair(v: &mut Vec<(String, String)>, k: &str, val: &String)
    ensures
        pair_views(final(v)@) == pair_views(old(v)@).push((k@, val@)),
{
    let key = String::from_str(k);
    v.push((key, val.clone()));
    assert(pair_views(v@) =~= pair_views(old(v)@).push((k@, val@)));
}

/// The environment of an applet, as [`applet_env_spec`] says.
pub fn applet_env(
    minimize: bool,
    size: &String,
    privileged: &Option<String>,
    env: &Vec<(String, String)>,
    requests_display: bool,
    socket: &String,
) -> (res: Vec<(String, String)>)
    ensures
        pair_views(res@) == applet_env_spec(minimize, size@, match privileged { Some(p) => Some(p@), None => None },
            pair_views(env@), requests_display, socket@),
{
    let mut res: Vec<(String, String)> = Vec::new();
    let flag = if minimize { String::from_str("true") } else { String::from_str("false") };
    push_pair(&mut res, "X_MINIMIZE_APPLET", &flag);
    push_pair(&mut res, "COSMIC_PANEL_SIZE", size);
    match privileged {
        Some(fd) => {
            push_pair(&mut res, "X_PRIVILEGED_WAYLAND_SOCKET", fd);
        },
        None => {},
    }
    let ghost head = pair_views(res@);
    let display = String::from_str("WAYLAND_DISPLAY");
    let mut i: usize = 0;
    while i < env.len()
        invariant
            i <= env@.len(),
            display@ == "WAYLAND_DISPLAY"@,
            pair_views(res@) == head + passed_env(pair_views(env@).take(i as int), requests_display),
        decreases env@.len() - i,
    {
        let ghost t = pair_views(env@).take(i + 1);
        assert(t.drop_last() =~= pair_views(env@).take(i as int));
        assert(t.last() == (env@[i as int].0@, env@[i as int].1@));
        let skip = !requests_display && env[i].0.eq(&display);
        if !skip {
            let ghost before = pair_views(res@);
            let k = env[i].0.clone();
            let val = env[i].1.clone();
            res.push((k, val));
            assert(pair_views(res@) =~= before.push((env@[i as int].0@, env@[i as int].1@)));
        }
        i = i + 1;
        assert(head + passed_env(t, requests_display) =~= pair_views(res@));
    }
    assert(pair_views(env@).take(i as int) =~= pair_views(env@));
    push_pair(&mut res, "WAYLAND_SOCKET", socket);
    assert(pair_views(res@) =~= applet_env_spec(minimize, size@, match privileged { Some(p) => Some(p@), None => None },
        pair_views(env@), requests_display, socket@));
    res
}

/// The argument that passes a variable to a Flatpak.
pub open spec fn env_arg(k: Seq<char>, v: Seq<char>) -> Seq<char> {
    "--env="@ + k + "="@ + v
}

/// An argument put before the last two, or first when there are fewer.
pub open spec fn insert_near_end(args: Seq<Seq<char>>, a: Seq<char>) -> Seq<Seq<char>> {
    args.insert(if args.len() >= 2 { args.len() - 2 } else { 0 }, a)
}

/// The variables passed as arguments, one after another.
pub open spec fn env_args(args: Seq<Seq<char>>, env: Seq<(Seq<char>, Seq<char>)>) -> Seq<Seq<char>>
    decreases env.len(),
{
    if env.len() == 0 {
        args
    } else {
        env_args(insert_near_end(args, env_arg(env[0].0, env[0].1)), env.drop_first())
    }
}

/// The arguments of a Flatpak applet: it inherits the Wayland socket and
/// gets each variable of its environment as an argument.
pub open spec fn flatpak_args_spec(args: Seq<Seq<char>>, env: Seq<(Seq<char>, Seq<char>)>) -> Seq<Seq<char>> {
    env_args(insert_near_end(args, "--socket=inherit-wayland-socket"@), env)
}

fn insert_arg(args: &mut Vec<String>, a: String)
    ensures
        string_views(final(args)@) == insert_near_end(string_views(old(args)@), a@),
{
    let n = args.len();
    let at: usize = if n >= 2 { n - 2 } else { 0 };
    args.insert(at, a);
    assert(string_views(args@) =~= string_views(old(args)@).insert(at as int, a@));
}

fn make_env_arg(k: &String, v: &String) -> (res: String)
    ensures
        res@ == env_arg(k@, v@),
{
    let mut a = String::from_str("--env=");
    a.append(k.as_str());
    a.append("=");
    a.append(v.as_str());
    a
}

/// The arguments of a Flatpak applet, as [`flatpak_args_spec`] says.
pub fn flatpak_args(args: Vec<String>, env: &Vec<(String, String)>) -> (res: Vec<String>)
    ensures
        string_views(res@) == flatpak_args_spec(string_views(args@), pair_views(env@)),
{
    let mut res = args;
    insert_arg(&mut res, String::from_str("--socket=inherit-wayland-socket"));
    let ghost start = string_views(res@);
    let mut i: usize = 0;
    assert(pair_views(env@).subrange(0, env@.len() as int) =~= pair_views(env@));
    while i < env.len()
        invariant
            i <= env@.len(),
            env_args(string_views(res@), pair_views(env@).subrange(i as int, env@.len() as int)) == env_args(start, pair_views(env@)),
        decreases env@.len() - i,
    {
        let ghost rest = pair_views(env@).subrange(i as int, env@.len() as int);
        assert(rest.drop_first() =~= pair_views(env@).subrange(i + 1, env@.len() as int));
        assert(rest[0] == (env@[i as int].0@, env@[i as int].1@));
        let a = make_env_arg(&env[i].0, &env[i].1);
        insert_arg(&mut res, a);
        i = i + 1;
    }
    assert(pair_views(env@).subrange(i as int, env@.len() as int) =~= Seq::<(Seq<char>, Seq<char>)>::empty());
    res
}

/// How an applet is started: its program, its arguments and its
/// environment.
pub struct LaunchPlan {
    pub program: String,
    pub args: Vec<String>,
    pub env: Vec<(String, String)>,
}

/// Whether a plan starts the command's first word with the rest as
/// arguments, a Flatpak with its extra arguments, in the given environment.
pub open spec fn plan_from(words: Seq<Seq<char>>, is_flatpak: bool, env: Seq<(Seq<char>, Seq<char>)>, p: LaunchPlan) -> bool {
    &&& p.program@ == words[0]
    &&& string_views(p.args@) == if is_flatpak { flatpak_args_spec(words.drop_first(), env) } else { words.drop_first() }
    &&& pair_views(p.env@) == env
}

/// The plan for a command already split into words, as [`plan_from`] says.
pub fn plan_from_words(words: Vec<String>, is_flatpak: bool, env: Vec<(String, String)>) -> (res: LaunchPlan)
    requires
        words@.len() > 0,
    ensures
        plan_from(string_views(words@), is_flatpak, pair_views(env@), res),
{
    let mut words = words;
    let ghost w0 = words@;
    let program = words.remove(0);
    assert(string_views(words@) =~= string_views(w0).drop_first());
    let args = if is_flatpak { flatpak_args(words, &env) } else { words };
    LaunchPlan { program, args, env }
}

/// The plan for an applet whose desktop entry has the command line
/// `command`: none when the command has no word, where the panel cannot
/// start the applet; otherwise as [`plan_from`] says for its words.
pub fn launch_plan(command: &String, is_flatpak: bool, env: Vec<(String, String)>) -> (res: Option<LaunchPlan>)
    ensures
        match res {
            None => shell_words(command@).len() == 0,
            Some(p) => shell_words(command@).len() > 0 && plan_from(shell_words(command@), is_flatpak, pair_views(env@), p),
        },
{
    let words = split_shell_words(command.as_str());
    if words.len() == 0 {
        return None;
    }
    Some(plan_from_words(words, is_flatpak, env))
}

/// Whether `pat` occurs in `s`.
pub open spec fn has_substring(s: Seq<char>, pat: Seq<char>) -> bool {
    exists|i: int| 0 <= i && i + pat.len() <= s.len() && (#[trigger] s.skip(i)).take(pat.len() as int) == pat
}

/// Whether `pat` occurs in `s` at position `i`.
fn occurs_at(s: &str, pat: &str, i: usize) -> (res: bool)
    requires
        i + pat@.len() <= s@.len(),
    ensures
        res == (s@.skip(i as int).take(pat@.len() as int) == pat@),
{
    let m = pat.unicode_len();
    let n = s.unicode_len();
    let ghost window = s@.skip(i as int).take(m as int);
    let mut j: usize = 0;
    while j < m
        invariant
            j <= m,
            m == pat@.len(),
            n == s@.len(),
            i + m <= s@.len(),
            window == s@.skip(i as int).take(m as int),
            forall|t: int| 0 <= t < j ==> window[t] == pat@[t],
        decreases m - j,
    {
        if s.get_char(i + j) != pat.get_char(j) {
            proof { assert(window[j as int] != pat@[j as int]); }
            return false;
        }
        j = j + 1;
    }
    proof { assert(window =~= pat@); }
    true
}

/// Whether `pat` occurs in `s`, as [`has_substring`] says; what
/// `str::contains` answers for a string pattern.
fn str_contains(s: &str, pat: &str) -> (res: bool)
    ensures
        res == has_substring(s@, pat@),
{
    let n = s.unicode_len();
    let m = pat.unicode_len();
    if m > n {
        return false;
    }
    if m == 0 {
        proof { assert(s@.skip(0).take(0) =~= pat@); }
        return true;
    }
    let mut i: usize = 0;
    while i <= n - m
        invariant
            n == s@.len(),
            m == pat@.len(),
            1 <= m <= n,
            i <= n - m + 1,
            forall|k: int| 0 <= k < i ==> (#[trigger] s@.skip(k)).take(m as int) != pat@,
        decreases n - m + 1 - i,
    {
        if occurs_at(s, pat, i) {
            return true;
        }
        i = i + 1;
    }
    false
}

/// The environment of an applet started again: what it had, without its
/// old Wayland socket, and its new one.
pub open spec fn restart_env_spec(prev: Seq<(Seq<char>, Seq<char>)>, socket: Seq<char>) -> Seq<(Seq<char>, Seq<char>)> {
    prev.filter(|p: (Seq<char>, Seq<char>)| p.0 != "WAYLAND_SOCKET"@).push(("WAYLAND_SOCKET"@, socket))
}

/// The arguments of an applet started again: a Flatpak loses every argument
/// that mentions its old Wayland socket and gets its new one; others keep
/// theirs.
pub open spec fn restart_args_spec(args: Seq<Seq<char>>, is_flatpak: bool, socket: Seq<char>) -> Seq<Seq<char>> {
    if is_flatpak {
        insert_near_end(args.filter(|a: Seq<char>| !has_substring(a, "WAYLAND_SOCKET"@)), "--env=WAYLAND_SOCKET="@ + socket)
    } else {
        args
    }
}

/// The environment and arguments of an applet started again with a new
/// Wayland socket, as [`restart_env_spec`] and [`restart_args_spec`] say.
pub fn restart_launch(prev_env: &Vec<(String, String)>, args: &Vec<String>, is_flatpak: bool, socket: &String)
    -> (res: (Vec<(String, String)>, Vec<String>))
    ensures
        pair_views(res.0@) == restart_env_spec(pair_views(prev_env@), socket@),
        string_views(res.1@) == restart_args_spec(string_views(args@), is_flatpak, socket@),
{
    let key = String::from_str("WAYLAND_SOCKET");
    let mut env: Vec<(String, String)> = Vec::new();
    let ghost pred = |p: (Seq<char>, Seq<char>)| p.0 != "WAYLAND_SOCKET"@;
    let mut i: usize = 0;
    while i < prev_env.len()
        invariant
            i <= prev_env@.len(),
            key@ == "WAYLAND_SOCKET"@,
            pred == (|p: (Seq<char>, Seq<char>)| p.0 != "WAYLAND_SOCKET"@),
            pair_views(env@) == pair_views(prev_env@).take(i as int).filter(pred),
        decreases prev_env@.len() - i,
    {
        let ghost t = pair_views(prev_env@).take(i + 1);
        proof {
            reveal_with_fuel(Seq::filter, 1);
            assert(t.drop_last() =~= pair_views(prev_env@).take(i as int));
            assert(t.last() == (prev_env@[i as int].0@, prev_env@[i as int].1@));
        }
        if !prev_env[i].0.eq(&key) {
            let ghost before = pair_views(env@);
            env.push((prev_env[i].0.clone(), prev_env[i].1.clone()));
            assert(pair_views(env@) =~= before.push((prev_env@[i as int].0@, prev_env@[i as int].1@)));
        }
        i = i + 1;
    }
    assert(pair_views(prev_env@).take(i as int) =~= pair_views(prev_env@));
    push_pair(&mut env, "WAYLAND_SOCKET", socket);
    if !is_flatpak {
        let mut same: Vec<String> = Vec::new();
        let mut j: usize = 0;
        while j < args.len()
            invariant
                j <= args@.len(),
                string_views(same@) == string_views(args@).take(j as int),
            decreases args@.len() - j,
        {
            let ghost before = string_views(same@);
            same.push(args[j].clone());
            assert(string_views(same@) =~= before.push(args@[j as int]@));
            assert(string_views(args@).take(j + 1) =~= string_views(args@).take(j as int).push(args@[j as int]@));
            j = j + 1;
        }
        assert(string_views(args@).take(j as int) =~= string_views(args@));
        return (env, same);
    }
    let mut kept: Vec<String> = Vec::new();
    let ghost apred = |a: Seq<char>| !has_substring(a, "WAYLAND_SOCKET"@);
    let mut j: usize = 0;
    while j < args.len()
        invariant
            j <= args@.len(),
            key@ == "WAYLAND_SOCKET"@,
            apred == (|a: Seq<char>| !has_substring(a, "WAYLAND_SOCKET"@)),
            string_views(kept@) == string_views(args@).take(j as int).filter(apred),
        decreases args@.len() - j,
    {
        let ghost t = string_views(args@).take(j + 1);
        proof {
            reveal_with_fuel(Seq::filter, 1);
            assert(t.drop_last() =~= string_views(args@).take(j as int));
            assert(t.last() == args@[j as int]@);
        }
        if !str_contains(args[j].as_str(), key.as_str()) {
            let ghost before = string_views(kept@);
            kept.push(args[j].clone());
            assert(string_views(kept@) =~= before.push(args@[j as int]@));
        }
        j = j + 1;
    }
    assert(string_views(args@).take(j as int) =~= string_views(args@));
    let mut a = String::from_str("--env=WAYLAND_SOCKET=");
    a.append(socket.as_str());
    insert_arg(&mut kept, a);
    (env, kept)
}


/// Each applet is started at most once, even when several desktop files are
/// named after it: the pairs of [`match_files`] take each applet at most
/// once, follow the files' order, and pair each applet with a file named
/// after it.
pub proof fn lemma_each_applet_started_once(names: Seq<Seq<char>>, stems: Seq<Option<Seq<char>>>)
    requires
        stems.len() <= usize::MAX,
        names.len() <= usize::MAX,
    ensures
        forall|i: int, j: int| 0 <= i < j < match_files(names, stems).len() ==>
            (#[trigger] match_files(names, stems)[i]).0 != (#[trigger] match_files(names, stems)[j]).0
            && match_files(names, stems)[i].1 < match_files(names, stems)[j].1,
        forall|k: int| 0 <= k < match_files(names, stems).len() ==> {
            let (a, f) = #[trigger] match_files(names, stems)[k];
            &&& a < names.len()
            &&& f < stems.len()
            &&& stems[f as int] == Some(names[a as int])
        },
    decreases stems.len(),
{
    if stems.len() > 0 {
        let prev = match_files(names, stems.drop_last());
        let cur = match_files(names, stems);
        lemma_each_applet_started_once(names, stems.drop_last());
        match stems.last() {
            None => {},
            Some(st) => {
                lemma_first_free_bound(names, st, prev, names.len() as int);
                match first_free(names, st, prev, names.len() as int) {
                    Some(i) => {
                        assert(cur == prev.push((i as usize, (stems.len() - 1) as usize)));
                        assert forall|x: int, y: int| 0 <= x < y < cur.len() implies
                            (#[trigger] cur[x]).0 != (#[trigger] cur[y]).0 && cur[x].1 < cur[y].1 by {
                            if y == cur.len() - 1 {
                                assert(cur[x] == prev[x]);
                                assert(!taken(prev, i));
                                if cur[x].0 == i {
                                    assert(prev[x].0 == i);
                                }
                                assert(prev[x].1 < stems.drop_last().len());
                            } else {
                                assert(cur[x] == prev[x]);
                                assert(cur[y] == prev[y]);
                            }
                        }
                        assert forall|k: int| 0 <= k < cur.len() implies {
                            let (a, f) = #[trigger] cur[k];
                            &&& a < names.len()
                            &&& f < stems.len()
                            &&& stems[f as int] == Some(names[a as int])
                        } by {
                            if k < prev.len() {
                                assert(cur[k] == prev[k]);
                                assert(stems.drop_last()[prev[k].1 as int] == stems[prev[k].1 as int]);
                            }
                        }
                    },
                    None => {},
                }
            },
        }
        if cur == prev {
            assert forall|k: int| 0 <= k < cur.len() implies {
                let (a, f) = #[trigger] cur[k];
                &&& a < names.len()
                &&& f < stems.len()
                &&& stems[f as int] == Some(names[a as int])
            } by {
                assert(stems.drop_last()[prev[k].1 as int] == stems[prev[k].1 as int]);
            }
        }
    }
}

proof fn lemma_minimize_after_given(cands: Seq<MinimizeCandidate>, max: u32)
    ensures
        forall|k: int| 0 <= k < cands.len() && (#[trigger] cands[k]).has_socket ==>
            assign_minimize_spec(cands, max, true)[k] is None,
        assign_minimize_spec(cands, max, true).len() == cands.len(),
    decreases cands.len(),
{
    if cands.len() > 0 {
        lemma_minimize_after_given(cands.drop_first(), max);
        let r = assign_minimize_spec(cands, max, true);
        let rest = assign_minimize_spec(cands.drop_first(), max, true);
        assert forall|k: int| 0 <= k < cands.len() && (#[trigger] cands[k]).has_socket implies r[k] is None by {
            if k > 0 {
                assert(r[k] == rest[k - 1]);
                assert(cands.drop_first()[k - 1] == cands[k]);
            }
        }
    }
}

proof fn lemma_minimize_len(cands: Seq<MinimizeCandidate>, max: u32, given: bool)
    ensures
        assign_minimize_spec(cands, max, given).len() == cands.len(),
    decreases cands.len(),
{
    if cands.len() > 0 {
        lemma_minimize_len(cands.drop_first(), max, given);
        lemma_minimize_len(cands.drop_first(), max, true);
    }
}

/// Only one applet per panel becomes the minimize applet: among the
/// applets that start, at most one keeps a minimize priority, and it has
/// the highest one.
pub proof fn lemma_one_minimize_applet(cands: Seq<MinimizeCandidate>, max: u32, given: bool)
    ensures
        forall|i: int, j: int| 0 <= i < j < cands.len() && (#[trigger] cands[i]).has_socket && (#[trigger] cands[j]).has_socket ==>
            !(assign_minimize_spec(cands, max, given)[i] is Some && assign_minimize_spec(cands, max, given)[j] is Some),
        forall|i: int| 0 <= i < cands.len() && (#[trigger] cands[i]).has_socket && assign_minimize_spec(cands, max, given)[i] is Some ==>
            assign_minimize_spec(cands, max, given)[i] == Some(max),
        given ==> forall|i: int| 0 <= i < cands.len() && (#[trigger] cands[i]).has_socket ==> assign_minimize_spec(cands, max, given)[i] is None,
    decreases cands.len(),
{
    if cands.len() > 0 {
        let c = cands[0];
        let r = assign_minimize_spec(cands, max, given);
        lemma_minimize_len(cands.drop_first(), max, given);
        lemma_minimize_len(cands.drop_first(), max, true);
        if given {
            lemma_minimize_after_given(cands, max);
        } else if c.has_socket && c.minimize == Some(max) {
            lemma_minimize_after_given(cands.drop_first(), max);
            let rest = assign_minimize_spec(cands.drop_first(), max, true);
            assert(r == seq![Some(max)] + rest);
            assert forall|i: int, j: int| 0 <= i < j < cands.len() && (#[trigger] cands[i]).has_socket && (#[trigger] cands[j]).has_socket implies
                !(r[i] is Some && r[j] is Some) by {
                assert(r[j] == rest[j - 1]);
                assert(cands.drop_first()[j - 1] == cands[j]);
            }
            assert forall|i: int| 0 <= i < cands.len() && (#[trigger] cands[i]).has_socket && r[i] is Some implies r[i] == Some(max) by {
                if i > 0 {
                    assert(r[i] == rest[i - 1]);
                    assert(cands.drop_first()[i - 1] == cands[i]);
                }
            }
        } else {
            lemma_one_minimize_applet(cands.drop_first(), max, given);
            let rest = assign_minimize_spec(cands.drop_first(), max, given);
            assert(r == seq![if !c.has_socket { c.minimize } else { None::<u32> }] + rest);
            assert forall|i: int, j: int| 0 <= i < j < cands.len() && (#[trigger] cands[i]).has_socket && (#[trigger] cands[j]).has_socket implies
                !(r[i] is Some && r[j] is Some) by {
                assert(r[j] == rest[j - 1]);
                assert(cands.drop_first()[j - 1] == cands[j]);
                if i > 0 {
                    assert(r[i] == rest[i - 1]);
                    assert(cands.drop_first()[i - 1] == cands[i]);
                }
            }
            assert forall|i: int| 0 <= i < cands.len() && (#[trigger] cands[i]).has_socket && r[i] is Some implies r[i] == Some(max) by {
                if i > 0 {
                    assert(r[i] == rest[i - 1]);
                    assert(cands.drop_first()[i - 1] == cands[i]);
                }
            }
        }
    }
}

} // verus!
