//! Wireless interface enumeration: the pure decisions of the three-tier
//! fallback.  Reading the host's interface tables and testing for the
//! wireless-capability marker are the caller's job; this module filters,
//! parses and selects.

use vstd::prelude::*;
use crate::text;

verus! {

/// A wireless-capable network interface, by name.
pub struct WirelessInterface {
    pub name: String,
}

impl View for WirelessInterface {
    type V = Seq<char>;

    open spec fn view(&self) -> Seq<char> {
        self.name@
    }
}

impl DeepView for WirelessInterface {
    type V = Seq<char>;

    open spec fn deep_view(&self) -> Seq<char> {
        self.name@
    }
}

/// One host network interface as the caller observed it: its name and
/// whether it exposes the wireless-capability marker.
pub struct InterfaceEntry {
    pub name: String,
    pub wireless: bool,
}

/// The model of an observed interface entry.
pub ghost struct InterfaceEntryModel {
    pub name: Seq<char>,
    pub wireless: bool,
}

impl View for InterfaceEntry {
    type V = InterfaceEntryModel;

    open spec fn view(&self) -> InterfaceEntryModel {
        InterfaceEntryModel { name: self.name@, wireless: self.wireless }
    }
}

impl DeepView for InterfaceEntry {
    type V = InterfaceEntryModel;

    open spec fn deep_view(&self) -> InterfaceEntryModel {
        self.view()
    }
}

/// `s` begins with `pre`.
pub open spec fn starts_with_spec(s: Seq<char>, pre: Seq<char>) -> bool {
    text::is_match_at(s, pre, 0)
}

/// `pat` occurs somewhere in `s`.
pub open spec fn contains_spec(s: Seq<char>, pat: Seq<char>) -> bool {
    text::first_match(s, pat) is Some
}

/// The names of the entries that carry the wireless marker, in order.
pub open spec fn marked_names(es: Seq<InterfaceEntryModel>) -> Seq<Seq<char>>
    decreases es.len(),
{
    if es.len() == 0 {
        Seq::empty()
    } else {
        (if es[0].wireless {
            seq![es[0].name]
        } else {
            Seq::<Seq<char>>::empty()
        }) + marked_names(es.drop_first())
    }
}

proof fn lemma_marked_names_step(es: Seq<InterfaceEntryModel>, i: int)
    requires
        0 <= i < es.len(),
    ensures
        marked_names(es.skip(i)) == (if es[i].wireless {
            seq![es[i].name]
        } else {
            Seq::<Seq<char>>::empty()
        }) + marked_names(es.skip(i + 1)),
{
    assert(es.skip(i)[0] == es[i]);
    assert(es.skip(i).drop_first() =~= es.skip(i + 1));
}

/// Keeps the names of the wireless-marked entries, in order.
#[verifier::loop_isolation(false)]
pub fn filter_wireless(es: &Vec<InterfaceEntry>) -> (r: Vec<String>)
    ensures
        r.deep_view() == marked_names(es.deep_view()),
{
    let mut out: Vec<String> = Vec::new();
    let mut i: usize = 0;
    proof {
        assert(es.deep_view().skip(0) =~= es.deep_view());
        assert(out.deep_view() + marked_names(es.deep_view()) =~= marked_names(es.deep_view()));
    }
    while i < es.len()
        invariant
            i <= es@.len(),
            out.deep_view() + marked_names(es.deep_view().skip(i as int)) == marked_names(
                es.deep_view(),
            ),
        decreases es@.len() - i,
    {
        proof {
            lemma_marked_names_step(es.deep_view(), i as int);
        }
        if es[i].wireless {
            let ghost old_dv = out.deep_view();
            out.push(es[i].name.clone());
            proof {
                assert(out.deep_view() =~= old_dv.push(es.deep_view()[i as int].name));
                assert(out.deep_view() + marked_names(es.deep_view().skip(i + 1)) =~= old_dv + (seq![
                    es.deep_view()[i as int].name,
                ] + marked_names(es.deep_view().skip(i + 1))));
            }
        } else {
            proof {
                assert(Seq::<Seq<char>>::empty() + marked_names(es.deep_view().skip(i + 1))
                    =~= marked_names(es.deep_view().skip(i + 1)));
            }
        }
        i += 1;
    }
    proof {
        assert(marked_names(es.deep_view().skip(i as int)) =~= Seq::<Seq<char>>::empty());
        assert(out.deep_view() =~= marked_names(es.deep_view()));
    }
    out
}

/// The conventional wireless interface names probed when enumeration
/// finds nothing.
pub open spec fn conventional_names_spec() -> Seq<Seq<char>> {
    seq![
        "wlan0"@,
        "wlan1"@,
        "wlp2s0"@,
        "wlp3s0"@,
        "wlp4s0"@,
        "wlp1s0"@,
        "wlo1"@,
        "wlx"@,
        "wifi0"@,
        "ath0"@,
        "ra0"@,
    ]
}

/// The conventional wireless interface names, as strings.
pub fn conventional_interface_names() -> (r: Vec<String>)
    ensures
        r.deep_view() == conventional_names_spec(),
{
    let mut out: Vec<String> = Vec::new();
    out.push(String::from_str("wlan0"));
    out.push(String::from_str("wlan1"));
    out.push(String::from_str("wlp2s0"));
    out.push(String::from_str("wlp3s0"));
    out.push(String::from_str("wlp4s0"));
    out.push(String::from_str("wlp1s0"));
    out.push(String::from_str("wlo1"));
    out.push(String::from_str("wlx"));
    out.push(String::from_str("wifi0"));
    out.push(String::from_str("ath0"));
    out.push(String::from_str("ra0"));
    proof {
        assert(out.deep_view() =~= conventional_names_spec());
    }
    out
}

/// The interface name a generic link-listing line yields: its second
/// whitespace-separated token, trailing colons removed, when that name has
/// a wireless prefix.
pub open spec fn extract_interface_name_spec(line: Seq<char>) -> Option<Seq<char>> {
    let toks = text::tokens_spec(line);
    if toks.len() >= 2 {
        let iface = text::strip_trailing(toks[1], ':');
        if starts_with_spec(iface, "wl"@) || starts_with_spec(iface, "wifi"@) {
            Some(iface)
        } else {
            None
        }
    } else {
        None
    }
}

/// Extracts a wireless interface name from one link-listing line.
pub fn extract_interface_name(line: &str) -> (r: Option<String>)
    ensures
        match r {
            Some(name) => extract_interface_name_spec(line@) == Some(name@),
            None => extract_interface_name_spec(line@) is None,
        },
{
    let cv = text::to_chars(line);
    let toks = text::split_tokens(cv.as_slice());
    proof {
        assert(cv@.subrange(0, cv@.len() as int) =~= line@);
        assert(text::tokens_spec(cv@) == text::tokens_spec(line@));
    }
    if toks.len() < 2 {
        return None;
    }
    proof {
        assert(toks.deep_view()[1] == toks[1]@);
    }
    let tv = text::to_chars(toks[1].as_str());
    proof {
        assert(tv@.subrange(0, tv@.len() as int) =~= tv@);
    }
    let end = text::strip_trailing_end(tv.as_slice(), 0, tv.len(), ':');
    let ghost iface = text::strip_trailing(toks[1]@, ':');
    proof {
        assert(tv@.subrange(0, end as int) == iface);
    }
    let wl = text::to_chars("wl");
    let wifi = text::to_chars("wifi");
    proof {
        assert(wl@.len() == 2) by {
            reveal_strlit("wl");
        }
        assert(wifi@.len() == 4) by {
            reveal_strlit("wifi");
        }
    }
    let has_prefix = (end >= wl.len() && prefix_matches(tv.as_slice(), end, wl.as_slice())) || (end
        >= wifi.len() && prefix_matches(tv.as_slice(), end, wifi.as_slice()));
    proof {
        assert(has_prefix == (starts_with_spec(iface, "wl"@) || starts_with_spec(iface, "wifi"@)));
    }
    if has_prefix {
        Some(text::chars_to_string(tv.as_slice(), 0, end))
    } else {
        None
    }
}

/// Whether `s[0..end]` begins with `pre`.
fn prefix_matches(s: &[char], end: usize, pre: &[char]) -> (r: bool)
    requires
        pre@.len() <= end <= s@.len(),
    ensures
        r == starts_with_spec(s@.subrange(0, end as int), pre@),
{
    let r = text::matches_at(s, pre, 0);
    proof {
        let t = s@.subrange(0, end as int);
        if text::is_match_at(s@, pre@, 0) {
            assert(t.subrange(0, pre@.len() as int) =~= s@.subrange(0, pre@.len() as int));
        }
        if text::is_match_at(t, pre@, 0) {
            assert(s@.subrange(0, pre@.len() as int) =~= t.subrange(0, pre@.len() as int));
        }
    }
    r
}

/// The wireless interface names a whole link listing yields: one per line
/// that mentions a wireless-styled name and parses.
pub open spec fn link_line_name(line: Seq<char>) -> Option<Seq<char>> {
    if contains_spec(line, "wlan"@) || contains_spec(line, "wlp"@) || contains_spec(
        line,
        "wlo"@,
    ) {
        extract_interface_name_spec(line)
    } else {
        None
    }
}

/// The names of all link-listing lines, in line order.
pub open spec fn link_names_spec(ls: Seq<Seq<char>>) -> Seq<Seq<char>>
    decreases ls.len(),
{
    if ls.len() == 0 {
        Seq::empty()
    } else {
        (match link_line_name(ls[0]) {
            Some(n) => seq![n],
            None => Seq::<Seq<char>>::empty(),
        }) + link_names_spec(ls.drop_first())
    }
}

proof fn lemma_link_names_step(ls: Seq<Seq<char>>, i: int)
    requires
        0 <= i < ls.len(),
    ensures
        link_names_spec(ls.skip(i)) == (match link_line_name(ls[i]) {
            Some(n) => seq![n],
            None => Seq::<Seq<char>>::empty(),
        }) + link_names_spec(ls.skip(i + 1)),
{
    assert(ls.skip(i)[0] == ls[i]);
    assert(ls.skip(i).drop_first() =~= ls.skip(i + 1));
}

/// Collects wireless interface names from the output of a generic
/// link-listing command.
#[verifier::loop_isolation(false)]
pub fn link_listing_names(raw: &str) -> (r: Vec<String>)
    ensures
        r.deep_view() == link_names_spec(text::lines_spec(raw@)),
{
    let cv = text::to_chars(raw);
    let lines = text::split_lines(cv.as_slice());
    let ghost ls = text::lines_spec(raw@);
    let wlan = text::to_chars("wlan");
    let wlp = text::to_chars("wlp");
    let wlo = text::to_chars("wlo");
    let mut out: Vec<String> = Vec::new();
    let mut li: usize = 0;
    proof {
        assert(ls.skip(0) =~= ls);
        assert(out.deep_view() + link_names_spec(ls) =~= link_names_spec(ls));
    }
    while li < lines.len()
        invariant
            li <= ls.len(),
            out.deep_view() + link_names_spec(ls.skip(li as int)) == link_names_spec(ls),
        decreases ls.len() - li,
    {
        let line = &lines[li];
        proof {
            assert(line.deep_view() =~= line@);
            assert(ls[li as int] == lines.deep_view()[li as int]);
            lemma_link_names_step(ls, li as int);
        }
        let mentioned = text::find_pattern(line.as_slice(), wlan.as_slice()).is_some()
            || text::find_pattern(line.as_slice(), wlp.as_slice()).is_some() || text::find_pattern(
            line.as_slice(),
            wlo.as_slice(),
        ).is_some();
        if mentioned {
            let name = extract_interface_name_from_chars(line.as_slice());
            match name {
                Some(n) => {
                    let ghost old_dv = out.deep_view();
                    out.push(n);
                    proof {
                        assert(out.deep_view() =~= old_dv.push(
                            link_line_name(ls[li as int]).unwrap(),
                        ));
                        assert(out.deep_view() + link_names_spec(ls.skip(li + 1)) =~= old_dv + (seq![
                            link_line_name(ls[li as int]).unwrap(),
                        ] + link_names_spec(ls.skip(li + 1))));
                    }
                },
                None => {
                    proof {
                        assert(link_names_spec(ls.skip(li as int)) =~= link_names_spec(
                            ls.skip(li + 1),
                        ));
                    }
                },
            }
        } else {
            proof {
                assert(link_names_spec(ls.skip(li as int)) =~= link_names_spec(ls.skip(li + 1)));
            }
        }
        li += 1;
    }
    proof {
        assert(link_names_spec(ls.skip(li as int)) =~= Seq::<Seq<char>>::empty());
        assert(out.deep_view() =~= link_names_spec(ls));
    }
    out
}

/// Extracts a wireless interface name from a line already held as
/// characters.
fn extract_interface_name_from_chars(line: &[char]) -> (r: Option<String>)
    ensures
        match r {
            Some(name) => extract_interface_name_spec(line@) == Some(name@),
            None => extract_interface_name_spec(line@) is None,
        },
{
    let s = text::chars_to_string(line, 0, line.len());
    proof {
        assert(line@.subrange(0, line@.len() as int) =~= line@);
    }
    extract_interface_name(s.as_str())
}

/// The three-tier fallback: the marked enumeration when it found anything,
/// else the conventional names that proved wireless, else the heuristic
/// link-listing names.
pub open spec fn select_names_spec(
    tier_a: Seq<Seq<char>>,
    tier_b: Seq<Seq<char>>,
    tier_c: Seq<Seq<char>>,
) -> Seq<Seq<char>> {
    if tier_a.len() > 0 {
        tier_a
    } else if tier_b.len() > 0 {
        tier_b
    } else {
        tier_c
    }
}

/// Selects the first non-empty tier and wraps its names as interfaces.
pub fn select_interfaces(tier_a: Vec<String>, tier_b: Vec<String>, tier_c: Vec<String>) -> (r: Vec<
    WirelessInterface,
>)
    ensures
        r.deep_view() == select_names_spec(tier_a.deep_view(), tier_b.deep_view(), tier_c.deep_view()),
{
    let chosen: Vec<String> = if tier_a.len() > 0 {
        tier_a
    } else if tier_b.len() > 0 {
        tier_b
    } else {
        tier_c
    };
    let mut out: Vec<WirelessInterface> = Vec::new();
    let mut i: usize = 0;
    while i < chosen.len()
        invariant
            i <= chosen@.len(),
            out.deep_view() =~= chosen.deep_view().take(i as int),
        decreases chosen@.len() - i,
    {
        let ghost old_dv = out.deep_view();
        out.push(WirelessInterface { name: chosen[i].clone() });
        proof {
            assert(out.deep_view() =~= old_dv.push(chosen.deep_view()[i as int]));
            assert(out.deep_view() =~= chosen.deep_view().take(i + 1));
        }
        i += 1;
    }
    proof {
        assert(chosen.deep_view().take(chosen@.len() as int) =~= chosen.deep_view());
    }
    out
}

} // verus!
