//! The grammar of addresses (RFC 5322, sections 3.4 and 4.4): mailboxes,
//! groups and lists of them, the obsolete forms included.
//!
//! ```text
//! address      = mailbox / group
//! mailbox      = name-addr / addr-spec
//! name-addr    = [display-name] angle-addr
//! angle-addr   = [CFWS] "<" addr-spec ">" [CFWS] / obs-angle-addr
//! group        = display-name ":" [group-list] ";" [CFWS]
//! display-name = phrase
//! addr-spec    = local-part "@" domain
//! ```
//!
//! Where a rule has an obsolete form that holds every text of the current
//! form, the rule is written in its obsolete form: a local part is
//! `word *("." word)`, a domain is `atom *("." atom)` or a domain literal,
//! and a list may hold empty items.

use vstd::prelude::*;
use vstd::slice::slice_subrange;
use crate::bytes::{byte_at, has_byte, is_ascii, to_int, to_int3};
use crate::header::lexical::{
    atom, cfws, match_atom, match_cfws, match_phrase, match_word, opt_cfws, opt_fws, phrase,
    quoted_pair, skip_cfws, skip_fws, spec_is_obs_no_ws_ctl, word, is_obs_no_ws_ctl,
};
use crate::header::parts::{
    addresses_view, cleaned, mailbox_of, mailboxes_view, Address, AddressView, Group, GroupView,
    Mailbox, MailboxView,
};

verus! {

/// Whether `ch` is `dtext` in its current form: 33-90 or 94-126.
pub open spec fn spec_is_dtext(ch: u8) -> bool {
    33 <= ch <= 90 || 94 <= ch <= 126
}

/// Whether `ch` is `dtext` in its current form.
pub fn is_dtext(ch: u8) -> (r: bool)
    ensures
        r == spec_is_dtext(ch),
{
    (33 <= ch && ch <= 90) || (94 <= ch && ch <= 126)
}

/// `dtext = %d33-90 / %d94-126 / obs-dtext`, with
/// `obs-dtext = obs-NO-WS-CTL / quoted-pair`
pub open spec fn dtext(s: Seq<u8>, i: int) -> Option<int> {
    if 0 <= i < s.len() && (spec_is_dtext(s[i]) || spec_is_obs_no_ws_ctl(s[i])) {
        Some(i + 1)
    } else {
        quoted_pair(s, i)
    }
}

/// `*([FWS] dtext)`: the position after the contents of a domain literal
/// that stand at `i`.
pub open spec fn literal_body(s: Seq<u8>, i: int) -> int
    decreases s.len() - i,
{
    let f = opt_fws(s, i);
    if 0 <= i <= f <= s.len() {
        match dtext(s, f) {
            Some(e) => if f < e <= s.len() {
                literal_body(s, e)
            } else {
                i
            },
            None => i,
        }
    } else {
        i
    }
}

/// `domain-literal = [CFWS] "[" *([FWS] dtext) [FWS] "]" [CFWS]`
pub open spec fn domain_literal(s: Seq<u8>, i: int) -> Option<int> {
    let a = opt_cfws(s, i);
    if byte_at(s, a, 91) {
        let e = opt_fws(s, literal_body(s, a + 1));
        if byte_at(s, e, 93) {
            Some(opt_cfws(s, e + 1))
        } else {
            None
        }
    } else {
        None
    }
}

/// `*("." atom)`: the position after the atoms that follow at `i`.
pub open spec fn atoms_rest(s: Seq<u8>, i: int) -> int
    decreases s.len() - i,
{
    if byte_at(s, i, 46) {
        match atom(s, i + 1) {
            Some((a, e, n)) => if i < n <= s.len() {
                atoms_rest(s, n)
            } else {
                i
            },
            None => i,
        }
    } else {
        i
    }
}

/// `domain = dot-atom / domain-literal / obs-domain`, with
/// `obs-domain = atom *("." atom)`. Every dot-atom is an `obs-domain`.
pub open spec fn domain(s: Seq<u8>, i: int) -> Option<int> {
    match atom(s, i) {
        Some((a, e, n)) => Some(atoms_rest(s, n)),
        None => domain_literal(s, i),
    }
}

/// `*("." word)`: the position after the words that follow at `i`.
pub open spec fn words_rest(s: Seq<u8>, i: int) -> int
    decreases s.len() - i,
{
    if byte_at(s, i, 46) {
        match word(s, i + 1) {
            Some((n, text)) => if i < n <= s.len() {
                words_rest(s, n)
            } else {
                i
            },
            None => i,
        }
    } else {
        i
    }
}

/// `local-part = dot-atom / quoted-string / obs-local-part`, with
/// `obs-local-part = word *("." word)`. Every dot-atom and every quoted
/// string is an `obs-local-part`.
pub open spec fn local_part(s: Seq<u8>, i: int) -> Option<int> {
    match word(s, i) {
        Some((n, text)) => Some(words_rest(s, n)),
        None => None,
    }
}

/// `addr-spec = local-part "@" domain`
pub open spec fn addr_spec(s: Seq<u8>, i: int) -> Option<int> {
    match local_part(s, i) {
        Some(e) => if byte_at(s, e, 64) {
            domain(s, e + 1)
        } else {
            None
        },
        None => None,
    }
}

/// `*(CFWS / ",")`: the position after what leads a route at `i`.
pub open spec fn route_lead(s: Seq<u8>, i: int) -> int
    decreases s.len() - i,
{
    match cfws(s, i) {
        Some(e) => if 0 <= i < e <= s.len() {
            route_lead(s, e)
        } else {
            i
        },
        None => if byte_at(s, i, 44) {
            route_lead(s, i + 1)
        } else {
            i
        },
    }
}

/// `["@" domain]`: the position after the domain at `i`, or `i`.
pub open spec fn opt_at_domain(s: Seq<u8>, i: int) -> int {
    if byte_at(s, i, 64) {
        match domain(s, i + 1) {
            Some(e) => e,
            None => i,
        }
    } else {
        i
    }
}

/// `*("," [CFWS] ["@" domain])`: the position after what follows the
/// first domain of a route.
pub open spec fn route_tail(s: Seq<u8>, i: int) -> int
    decreases s.len() - i,
{
    if byte_at(s, i, 44) {
        let d = opt_at_domain(s, opt_cfws(s, i + 1));
        if i < d <= s.len() {
            route_tail(s, d)
        } else {
            i
        }
    } else {
        i
    }
}

/// `obs-route = obs-domain-list ":"`, with
/// `obs-domain-list = *(CFWS / ",") "@" domain *("," [CFWS] ["@" domain])`
pub open spec fn obs_route(s: Seq<u8>, i: int) -> Option<int> {
    let l = route_lead(s, i);
    if byte_at(s, l, 64) {
        match domain(s, l + 1) {
            Some(d) => {
                let t = route_tail(s, d);
                if byte_at(s, t, 58) {
                    Some(t + 1)
                } else {
                    None
                }
            },
            None => None,
        }
    } else {
        None
    }
}

/// An `addr-spec` at `i` with `">" [CFWS]` after it, as the place of the
/// address and the position after all of it: `(start, end, next)`.
pub open spec fn closed_addr(s: Seq<u8>, i: int) -> Option<(int, int, int)> {
    match addr_spec(s, i) {
        Some(e) => if byte_at(s, e, 62) {
            Some((i, e, opt_cfws(s, e + 1)))
        } else {
            None
        },
        None => None,
    }
}

/// `angle-addr = [CFWS] "<" addr-spec ">" [CFWS] / obs-angle-addr`, with
/// `obs-angle-addr = [CFWS] "<" obs-route addr-spec ">" [CFWS]`, as the
/// place of the address and the position after the brackets.
pub open spec fn angle_addr(s: Seq<u8>, i: int) -> Option<(int, int, int)> {
    let a = opt_cfws(s, i);
    if byte_at(s, a, 60) {
        match closed_addr(s, a + 1) {
            Some(t) => Some(t),
            None => match obs_route(s, a + 1) {
                Some(r) => closed_addr(s, r),
                None => None,
            },
        }
    } else {
        None
    }
}

/// `name-addr = [display-name] angle-addr`, as the position after it and
/// the mailbox.
pub open spec fn name_addr(s: Seq<u8>, i: int) -> Option<(int, MailboxView)> {
    match phrase(s, i) {
        Some((p, name)) => match angle_addr(s, p) {
            Some((a, e, n)) => Some((n, mailbox_of(name, s.subrange(a, e)))),
            None => None,
        },
        None => match angle_addr(s, i) {
            Some((a, e, n)) => Some((n, mailbox_of(Seq::empty(), s.subrange(a, e)))),
            None => None,
        },
    }
}

/// `mailbox = name-addr / addr-spec`, as the position after it and the
/// mailbox. The address is stored as it is written, comments included.
pub open spec fn mailbox(s: Seq<u8>, i: int) -> Option<(int, MailboxView)> {
    match name_addr(s, i) {
        Some(m) => Some(m),
        None => match addr_spec(s, i) {
            Some(e) => Some((e, mailbox_of(Seq::empty(), s.subrange(i, e)))),
            None => None,
        },
    }
}

/// `*([CFWS] ",")`: the position after the empty items that lead a list.
pub open spec fn empty_items(s: Seq<u8>, i: int) -> int
    decreases s.len() - i,
{
    let c = opt_cfws(s, i);
    if byte_at(s, c, 44) && 0 <= i <= c {
        empty_items(s, c + 1)
    } else {
        i
    }
}

/// `*("," [mailbox / CFWS])`: the rest of a list of mailboxes from `i`,
/// its mailboxes added to `acc`.
pub open spec fn mailboxes_rest(s: Seq<u8>, i: int, acc: Seq<MailboxView>) -> (
    int,
    Seq<MailboxView>,
)
    decreases s.len() - i,
{
    if byte_at(s, i, 44) {
        match mailbox(s, i + 1) {
            Some((e, m)) => if i < e <= s.len() {
                mailboxes_rest(s, e, acc.push(m))
            } else {
                (i, acc)
            },
            None => {
                let c = opt_cfws(s, i + 1);
                if i < c <= s.len() {
                    mailboxes_rest(s, c, acc)
                } else {
                    (i, acc)
                }
            },
        }
    } else {
        (i, acc)
    }
}

/// `mailbox-list = (mailbox *("," mailbox)) / obs-mbox-list`, with
/// `obs-mbox-list = *([CFWS] ",") mailbox *("," [mailbox / CFWS])`. Every
/// list of the current form is an `obs-mbox-list`.
pub open spec fn mailbox_list(s: Seq<u8>, i: int) -> Option<(int, Seq<MailboxView>)> {
    match mailbox(s, empty_items(s, i)) {
        Some((e, m)) => Some(mailboxes_rest(s, e, seq![m])),
        None => None,
    }
}

/// `obs-group-list = 1*([CFWS] ",") [CFWS]`
pub open spec fn obs_group_list(s: Seq<u8>, i: int) -> Option<int> {
    let l = empty_items(s, i);
    if l > i {
        Some(opt_cfws(s, l))
    } else {
        None
    }
}

/// `[group-list]`, with
/// `group-list = mailbox-list / CFWS / obs-group-list`: the position
/// after the list at `i` and its mailboxes. A list of commas, comments
/// and white space alone has no mailboxes.
pub open spec fn group_list(s: Seq<u8>, i: int) -> (int, Seq<MailboxView>) {
    match mailbox_list(s, i) {
        Some(r) => r,
        None => match obs_group_list(s, i) {
            Some(e) => (e, Seq::empty()),
            None => (opt_cfws(s, i), Seq::empty()),
        },
    }
}

/// `group = display-name ":" [group-list] ";" [CFWS]`, as the position
/// after it and the group.
pub open spec fn group(s: Seq<u8>, i: int) -> Option<(int, GroupView)> {
    match phrase(s, i) {
        Some((p, name)) => if byte_at(s, p, 58) {
            let (g, list) = group_list(s, p + 1);
            if byte_at(s, g, 59) {
                Some(
                    (
                        opt_cfws(s, g + 1),
                        GroupView { display_name: cleaned(name), mailboxes: list },
                    ),
                )
            } else {
                None
            }
        } else {
            None
        },
        None => None,
    }
}

/// `address = mailbox / group`, as the position after it and the
/// address.
pub open spec fn address(s: Seq<u8>, i: int) -> Option<(int, AddressView)> {
    match mailbox(s, i) {
        Some((e, m)) => Some((e, AddressView::Mailbox(m))),
        None => match group(s, i) {
            Some((e, g)) => Some((e, AddressView::Group(g))),
            None => None,
        },
    }
}

/// `*("," [address / CFWS])`: the rest of a list of addresses from `i`,
/// its addresses added to `acc`.
pub open spec fn addresses_rest(s: Seq<u8>, i: int, acc: Seq<AddressView>) -> (
    int,
    Seq<AddressView>,
)
    decreases s.len() - i,
{
    if byte_at(s, i, 44) {
        match address(s, i + 1) {
            Some((e, a)) => if i < e <= s.len() {
                addresses_rest(s, e, acc.push(a))
            } else {
                (i, acc)
            },
            None => {
                let c = opt_cfws(s, i + 1);
                if i < c <= s.len() {
                    addresses_rest(s, c, acc)
                } else {
                    (i, acc)
                }
            },
        }
    } else {
        (i, acc)
    }
}

/// `address-list = (address *("," address)) / obs-addr-list`, with
/// `obs-addr-list = *([CFWS] ",") address *("," [address / CFWS])`. Every
/// list of the current form is an `obs-addr-list`.
pub open spec fn address_list(s: Seq<u8>, i: int) -> Option<(int, Seq<AddressView>)> {
    match address(s, empty_items(s, i)) {
        Some((e, a)) => Some(addresses_rest(s, e, seq![a])),
        None => None,
    }
}

fn match_dtext(s: &[u8], i: usize) -> (r: Option<usize>)
    requires
        i <= s.len(),
    ensures
        to_int(r) == dtext(s@, i as int),
        r matches Some(e) ==> i < e <= s.len(),
{
    if i < s.len() && (is_dtext(s[i]) || is_obs_no_ws_ctl(s[i])) {
        Some(i + 1)
    } else if has_byte(s, i, 92) && i + 1 < s.len() && s[i + 1] < 128 {
        Some(i + 2)
    } else {
        None
    }
}

/// Matches the rule [`domain_literal`] at `i`.
pub fn match_domain_literal(s: &[u8], i: usize) -> (r: Option<usize>)
    requires
        i <= s.len(),
    ensures
        to_int(r) == domain_literal(s@, i as int),
        r matches Some(e) ==> i < e <= s.len(),
{
    let a = skip_cfws(s, i);
    if !has_byte(s, a, 91) {
        return None;
    }
    let mut c: usize = a + 1;
    loop
        invariant
            a < c <= s.len(),
            literal_body(s@, a + 1) == literal_body(s@, c as int),
        ensures
            a < c <= s.len(),
            literal_body(s@, a + 1) == c,
        decreases s.len() - c,
    {
        let f = skip_fws(s, c);
        match match_dtext(s, f) {
            Some(e) => {
                c = e;
            },
            None => {
                break ;
            },
        }
    }
    let e = skip_fws(s, c);
    if has_byte(s, e, 93) {
        Some(skip_cfws(s, e + 1))
    } else {
        None
    }
}

/// Matches the rule [`domain`] at `i`.
pub fn match_domain(s: &[u8], i: usize) -> (r: Option<usize>)
    requires
        i <= s.len(),
    ensures
        to_int(r) == domain(s@, i as int),
        r matches Some(e) ==> i < e <= s.len(),
{
    let mut e: usize = match match_atom(s, i) {
        Some((_, _, n)) => n,
        None => { return match_domain_literal(s, i); },
    };
    loop
        invariant
            i < e <= s.len(),
            domain(s@, i as int) == Some(atoms_rest(s@, e as int)),
        ensures
            i < e <= s.len(),
            domain(s@, i as int) == Some(e as int),
        decreases s.len() - e,
    {
        if !has_byte(s, e, 46) {
            break ;
        }
        match match_atom(s, e + 1) {
            Some((_, _, n)) => {
                e = n;
            },
            None => {
                break ;
            },
        }
    }
    Some(e)
}

/// Matches the rule [`local_part`] at `i`.
pub fn match_local_part(s: &[u8], i: usize) -> (r: Option<usize>)
    requires
        i <= s.len(),
    ensures
        to_int(r) == local_part(s@, i as int),
        r matches Some(e) ==> i < e <= s.len(),
{
    let mut e: usize = match match_word(s, i) {
        Some((n, _)) => n,
        None => { return None; },
    };
    loop
        invariant
            i < e <= s.len(),
            local_part(s@, i as int) == Some(words_rest(s@, e as int)),
        ensures
            i < e <= s.len(),
            local_part(s@, i as int) == Some(e as int),
        decreases s.len() - e,
    {
        if !has_byte(s, e, 46) {
            break ;
        }
        match match_word(s, e + 1) {
            Some((n, _)) => {
                e = n;
            },
            None => {
                break ;
            },
        }
    }
    Some(e)
}

/// Matches the rule [`addr_spec`] at `i`.
pub fn match_addr_spec(s: &[u8], i: usize) -> (r: Option<usize>)
    requires
        i <= s.len(),
    ensures
        to_int(r) == addr_spec(s@, i as int),
        r matches Some(e) ==> i < e <= s.len(),
{
    match match_local_part(s, i) {
        Some(e) => if has_byte(s, e, 64) {
            match_domain(s, e + 1)
        } else {
            None
        },
        None => None,
    }
}

fn skip_at_domain(s: &[u8], i: usize) -> (e: usize)
    requires
        i <= s.len(),
    ensures
        e == opt_at_domain(s@, i as int),
        i <= e <= s.len(),
{
    if has_byte(s, i, 64) {
        match match_domain(s, i + 1) {
            Some(e) => e,
            None => i,
        }
    } else {
        i
    }
}

fn match_obs_route(s: &[u8], i: usize) -> (r: Option<usize>)
    requires
        i <= s.len(),
    ensures
        to_int(r) == obs_route(s@, i as int),
        r matches Some(e) ==> i < e <= s.len(),
{
    let mut l: usize = i;
    loop
        invariant
            i <= l <= s.len(),
            route_lead(s@, i as int) == route_lead(s@, l as int),
        ensures
            i <= l <= s.len(),
            route_lead(s@, i as int) == l,
        decreases s.len() - l,
    {
        match match_cfws(s, l) {
            Some(e) => {
                l = e;
            },
            None => {
                if has_byte(s, l, 44) {
                    l = l + 1;
                } else {
                    break ;
                }
            },
        }
    }
    if !has_byte(s, l, 64) {
        return None;
    }
    let d = match match_domain(s, l + 1) {
        Some(d) => d,
        None => { return None; },
    };
    let mut t: usize = d;
    loop
        invariant
            i < t <= s.len(),
            route_tail(s@, d as int) == route_tail(s@, t as int),
        ensures
            i < t <= s.len(),
            route_tail(s@, d as int) == t,
        decreases s.len() - t,
    {
        if !has_byte(s, t, 44) {
            break ;
        }
        let c = skip_cfws(s, t + 1);
        t = skip_at_domain(s, c);
    }
    if has_byte(s, t, 58) {
        Some(t + 1)
    } else {
        None
    }
}

fn match_closed_addr(s: &[u8], i: usize) -> (r: Option<(usize, usize, usize)>)
    requires
        i <= s.len(),
    ensures
        to_int3(r) == closed_addr(s@, i as int),
        r matches Some((a, e, n)) ==> a == i && i < e < n <= s.len(),
{
    match match_addr_spec(s, i) {
        Some(e) => if has_byte(s, e, 62) {
            Some((i, e, skip_cfws(s, e + 1)))
        } else {
            None
        },
        None => None,
    }
}

/// Matches the rule [`angle_addr`] at `i`.
pub fn match_angle_addr(s: &[u8], i: usize) -> (r: Option<(usize, usize, usize)>)
    requires
        i <= s.len(),
    ensures
        to_int3(r) == angle_addr(s@, i as int),
        r matches Some((a, e, n)) ==> i < a < e < n <= s.len(),
{
    let a = skip_cfws(s, i);
    if has_byte(s, a, 60) {
        match match_closed_addr(s, a + 1) {
            Some(t) => Some(t),
            None => match match_obs_route(s, a + 1) {
                Some(r) => match_closed_addr(s, r),
                None => None,
            },
        }
    } else {
        None
    }
}

/// A position and a mailbox as mathematical values.
pub open spec fn to_mailbox(r: Option<(usize, Mailbox)>) -> Option<(int, MailboxView)> {
    match r {
        Some((e, m)) => Some((e as int, m@)),
        None => None,
    }
}

fn match_name_addr(s: &[u8], i: usize) -> (r: Option<(usize, Mailbox)>)
    requires
        i <= s.len(),
        is_ascii(s@),
    ensures
        to_mailbox(r) == name_addr(s@, i as int),
        r matches Some((e, m)) ==> i < e <= s.len(),
{
    match match_phrase(s, i) {
        Some((p, name)) => match match_angle_addr(s, p) {
            Some((a, e, n)) => Some(
                (n, Mailbox::new_raw(Some(name.as_slice()), slice_subrange(s, a, e))),
            ),
            None => None,
        },
        None => match match_angle_addr(s, i) {
            Some((a, e, n)) => Some((n, Mailbox::new_raw(None, slice_subrange(s, a, e)))),
            None => None,
        },
    }
}

/// `mailbox = name-addr / addr-spec`
pub(crate) fn match_mailbox(s: &[u8], i: usize) -> (r: Option<(usize, Mailbox)>)
    requires
        i <= s.len(),
        is_ascii(s@),
    ensures
        to_mailbox(r) == mailbox(s@, i as int),
        r matches Some((e, m)) ==> i < e <= s.len(),
{
    match match_name_addr(s, i) {
        Some(m) => Some(m),
        None => match match_addr_spec(s, i) {
            Some(e) => Some((e, Mailbox::new_raw(None, slice_subrange(s, i, e)))),
            None => None,
        },
    }
}

fn skip_empty_items(s: &[u8], i: usize) -> (e: usize)
    requires
        i <= s.len(),
    ensures
        e == empty_items(s@, i as int),
        i <= e <= s.len(),
{
    let mut e: usize = i;
    loop
        invariant
            i <= e <= s.len(),
            empty_items(s@, i as int) == empty_items(s@, e as int),
        ensures
            i <= e <= s.len(),
            empty_items(s@, i as int) == e,
        decreases s.len() - e,
    {
        let c = skip_cfws(s, e);
        if has_byte(s, c, 44) {
            e = c + 1;
        } else {
            break ;
        }
    }
    e
}

/// `mailbox-list`, in its obsolete form
pub(crate) fn match_mailbox_list(s: &[u8], i: usize) -> (r: Option<(usize, Vec<Mailbox>)>)
    requires
        i <= s.len(),
        is_ascii(s@),
    ensures
        match r {
            Some((e, list)) => mailbox_list(s@, i as int) == Some(
                (e as int, mailboxes_view(list@)),
            ) && i < e <= s.len(),
            None => mailbox_list(s@, i as int) is None,
        },
{
    let start = skip_empty_items(s, i);
    let (mut e, first) = match match_mailbox(s, start) {
        Some((e, m)) => (e, m),
        None => { return None; },
    };
    let mut list: Vec<Mailbox> = Vec::new();
    let ghost first_view = first@;
    list.push(first);
    proof {
        assert(mailboxes_view(list@) =~= seq![first_view]);
    }
    loop
        invariant
            i < e <= s.len(),
            is_ascii(s@),
            mailbox_list(s@, i as int) == Some(
                mailboxes_rest(s@, e as int, mailboxes_view(list@)),
            ),
        ensures
            i < e <= s.len(),
            mailbox_list(s@, i as int) == Some((e as int, mailboxes_view(list@))),
        decreases s.len() - e,
    {
        if !has_byte(s, e, 44) {
            break ;
        }
        match match_mailbox(s, e + 1) {
            Some((e2, m)) => {
                let ghost before = mailboxes_view(list@);
                let ghost m_view = m@;
                list.push(m);
                proof {
                    assert(mailboxes_view(list@) =~= before.push(m_view));
                }
                e = e2;
            },
            None => {
                e = skip_cfws(s, e + 1);
            },
        }
    }
    Some((e, list))
}

fn match_group_list(s: &[u8], i: usize) -> (r: (usize, Vec<Mailbox>))
    requires
        i <= s.len(),
        is_ascii(s@),
    ensures
        group_list(s@, i as int) == (r.0 as int, mailboxes_view(r.1@)),
        i <= r.0 <= s.len(),
{
    match match_mailbox_list(s, i) {
        Some(r) => r,
        None => {
            let list: Vec<Mailbox> = Vec::new();
            proof {
                assert(mailboxes_view(list@) =~= Seq::empty());
            }
            let l = skip_empty_items(s, i);
            if l > i {
                (skip_cfws(s, l), list)
            } else {
                (skip_cfws(s, i), list)
            }
        },
    }
}

/// `group = display-name ":" [group-list] ";" [CFWS]`
pub(crate) fn match_group(s: &[u8], i: usize) -> (r: Option<(usize, Group)>)
    requires
        i <= s.len(),
        is_ascii(s@),
    ensures
        match r {
            Some((e, g)) => group(s@, i as int) == Some((e as int, g@)) && i < e <= s.len(),
            None => group(s@, i as int) is None,
        },
{
    match match_phrase(s, i) {
        Some((p, name)) => {
            if has_byte(s, p, 58) {
                let (g, list) = match_group_list(s, p + 1);
                if has_byte(s, g, 59) {
                    Some((skip_cfws(s, g + 1), Group::new_raw(Some(name.as_slice()), list)))
                } else {
                    None
                }
            } else {
                None
            }
        },
        None => None,
    }
}

/// `address = mailbox / group`
pub(crate) fn match_address(s: &[u8], i: usize) -> (r: Option<(usize, Address)>)
    requires
        i <= s.len(),
        is_ascii(s@),
    ensures
        match r {
            Some((e, a)) => address(s@, i as int) == Some((e as int, a@)) && i < e <= s.len(),
            None => address(s@, i as int) is None,
        },
{
    match match_mailbox(s, i) {
        Some((e, m)) => Some((e, Address::Mailbox(m))),
        None => match match_group(s, i) {
            Some((e, g)) => Some((e, Address::Group(g))),
            None => None,
        },
    }
}

/// `address-list`, in its obsolete form
pub(crate) fn match_address_list(s: &[u8], i: usize) -> (r: Option<(usize, Vec<Address>)>)
    requires
        i <= s.len(),
        is_ascii(s@),
    ensures
        match r {
            Some((e, list)) => address_list(s@, i as int) == Some(
                (e as int, addresses_view(list@)),
            ) && i < e <= s.len(),
            None => address_list(s@, i as int) is None,
        },
{
    let start = skip_empty_items(s, i);
    let (mut e, first) = match match_address(s, start) {
        Some((e, a)) => (e, a),
        None => { return None; },
    };
    let mut list: Vec<Address> = Vec::new();
    let ghost first_view = first@;
    list.push(first);
    proof {
        assert(addresses_view(list@) =~= seq![first_view]);
    }
    loop
        invariant
            i < e <= s.len(),
            is_ascii(s@),
            address_list(s@, i as int) == Some(
                addresses_rest(s@, e as int, addresses_view(list@)),
            ),
        ensures
            i < e <= s.len(),
            address_list(s@, i as int) == Some((e as int, addresses_view(list@))),
        decreases s.len() - e,
    {
        if !has_byte(s, e, 44) {
            break ;
        }
        match match_address(s, e + 1) {
            Some((e2, a)) => {
                let ghost before = addresses_view(list@);
                let ghost a_view = a@;
                list.push(a);
                proof {
                    assert(addresses_view(list@) =~= before.push(a_view));
                }
                e = e2;
            },
            None => {
                e = skip_cfws(s, e + 1);
            },
        }
    }
    Some((e, list))
}

} // verus!
