//! The lexical tokens of structured header fields (RFC 5322, sections 3.2
//! and 4.1): folding white space, comments, atoms, quoted strings, words
//! and phrases, the obsolete forms included.
//!
//! Each rule is a spec function over a byte sequence and a position, and
//! takes the first alternative that matches and the longest repetition.
//! Beside each rule stands the executable matcher.

use vstd::prelude::*;
use vstd::slice::{slice_subrange, slice_to_vec};
use crate::bytes::{byte_at, has_byte, is_ascii, scan, span, to_int, to_int3, Class};

verus! {

/// Whether `ch` is `VCHAR`: a visible ASCII byte, 33-126.
pub open spec fn spec_is_vchar(ch: u8) -> bool {
    33 <= ch <= 126
}

/// Whether `ch` is `obs-NO-WS-CTL`: 1-8, 11, 12, 14-31 or 127.
pub open spec fn spec_is_obs_no_ws_ctl(ch: u8) -> bool {
    1 <= ch <= 8 || ch == 11 || ch == 12 || 14 <= ch <= 31 || ch == 127
}

/// Whether `ch` is `qtext`: 33, 35-91, 93-126, or `obs-qtext`.
pub open spec fn spec_is_qtext(ch: u8) -> bool {
    ch == 33 || 35 <= ch <= 91 || 93 <= ch <= 126 || spec_is_obs_no_ws_ctl(ch)
}

/// Whether `ch` is `ctext`: 33-39, 42-91, 93-126, or `obs-ctext`.
pub open spec fn spec_is_ctext(ch: u8) -> bool {
    33 <= ch <= 39 || 42 <= ch <= 91 || 93 <= ch <= 126 || spec_is_obs_no_ws_ctl(ch)
}

/// Whether `ch` is `obs-utext`: 0, `obs-NO-WS-CTL` or `VCHAR`.
pub open spec fn spec_is_obs_utext(ch: u8) -> bool {
    ch == 0 || spec_is_obs_no_ws_ctl(ch) || spec_is_vchar(ch)
}

/// Whether `ch` is one of the specials: `( ) < > [ ] : ; @ \ , .` and the
/// double quote.
pub open spec fn spec_is_specials(ch: u8) -> bool {
    ch == 40 || ch == 41 || ch == 60 || ch == 62 || ch == 91 || ch == 93 || ch == 58 || ch == 59
        || ch == 64 || ch == 92 || ch == 44 || ch == 46 || ch == 34
}

/// Whether `ch` is `VCHAR`.
pub fn is_vchar(ch: u8) -> (r: bool)
    ensures
        r == spec_is_vchar(ch),
{
    33 <= ch && ch <= 126
}

/// Whether `ch` is `obs-NO-WS-CTL`.
pub fn is_obs_no_ws_ctl(ch: u8) -> (r: bool)
    ensures
        r == spec_is_obs_no_ws_ctl(ch),
{
    (1 <= ch && ch <= 8) || ch == 11 || ch == 12 || (14 <= ch && ch <= 31) || ch == 127
}

/// Whether `ch` is `obs-qtext`, which is `obs-NO-WS-CTL`.
pub fn is_obs_qtext(ch: u8) -> (r: bool)
    ensures
        r == spec_is_obs_no_ws_ctl(ch),
{
    is_obs_no_ws_ctl(ch)
}

/// Whether `ch` is `obs-ctext`, which is `obs-NO-WS-CTL`.
pub fn is_obs_ctext(ch: u8) -> (r: bool)
    ensures
        r == spec_is_obs_no_ws_ctl(ch),
{
    is_obs_no_ws_ctl(ch)
}

/// Whether `ch` is `qtext`.
pub fn is_qtext(ch: u8) -> (r: bool)
    ensures
        r == spec_is_qtext(ch),
{
    ch == 33 || (35 <= ch && ch <= 91) || (93 <= ch && ch <= 126) || is_obs_qtext(ch)
}

/// Whether `ch` is `ctext`.
pub fn is_ctext(ch: u8) -> (r: bool)
    ensures
        r == spec_is_ctext(ch),
{
    (33 <= ch && ch <= 39) || (42 <= ch && ch <= 91) || (93 <= ch && ch <= 126) || is_obs_ctext(ch)
}

/// Whether `ch` is `obs-utext`.
pub fn is_obs_utext(ch: u8) -> (r: bool)
    ensures
        r == spec_is_obs_utext(ch),
{
    ch == 0 || is_obs_no_ws_ctl(ch) || is_vchar(ch)
}

/// Whether `ch` is `atext`.
pub fn is_atext(ch: u8) -> (r: bool)
    ensures
        r == Class::Atext.has(ch),
{
    Class::Atext.contains(ch)
}

/// Whether `ch` is one of the specials.
pub fn is_specials(ch: u8) -> (r: bool)
    ensures
        r == spec_is_specials(ch),
{
    ch == 40 || ch == 41 || ch == 60 || ch == 62 || ch == 91 || ch == 93 || ch == 58 || ch == 59
        || ch == 64 || ch == 92 || ch == 44 || ch == 46 || ch == 34
}

/// Whether CR LF stands at `i`.
pub open spec fn crlf_at(s: Seq<u8>, i: int) -> bool {
    byte_at(s, i, 13) && byte_at(s, i + 1, 10)
}

/// `FWS = ([*WSP CRLF] 1*WSP) / obs-FWS`, with
/// `obs-FWS = 1*WSP *(CRLF 1*WSP)`: white space with at most one fold in
/// it.
pub open spec fn fws(s: Seq<u8>, i: int) -> Option<int> {
    let w = span(s, i, Class::Wsp);
    if crlf_at(s, w) && span(s, w + 2, Class::Wsp) > w + 2 {
        Some(span(s, w + 2, Class::Wsp))
    } else if w > i {
        Some(w)
    } else {
        None
    }
}

/// `[FWS]`: the position after the folding white space at `i`, or `i`.
pub open spec fn opt_fws(s: Seq<u8>, i: int) -> int {
    match fws(s, i) {
        Some(e) => e,
        None => i,
    }
}

/// `quoted-pair = ("\" (VCHAR / WSP)) / obs-qp`: a backslash and any
/// ASCII byte. The pair stands for that byte.
pub open spec fn quoted_pair(s: Seq<u8>, i: int) -> Option<int> {
    if byte_at(s, i, 92) && i + 1 < s.len() && s[i + 1] < 128 {
        Some(i + 2)
    } else {
        None
    }
}

/// `comment = "(" *([FWS] ccontent) [FWS] ")"`
pub open spec fn comment(s: Seq<u8>, i: int) -> Option<int>
    decreases s.len() - i, 0nat,
{
    if byte_at(s, i, 40) {
        let f = opt_fws(s, comment_body(s, i + 1));
        if byte_at(s, f, 41) {
            Some(f + 1)
        } else {
            None
        }
    } else {
        None
    }
}

/// `*([FWS] ccontent)`: the position after the contents that stand at `i`.
pub open spec fn comment_body(s: Seq<u8>, i: int) -> int
    decreases s.len() - i, 2nat,
{
    let f = opt_fws(s, i);
    if 0 <= i <= f <= s.len() {
        match ccontent(s, f) {
            Some(e) => if f < e <= s.len() {
                comment_body(s, e)
            } else {
                i
            },
            None => i,
        }
    } else {
        i
    }
}

/// `ccontent = ctext / quoted-pair / comment`
pub open spec fn ccontent(s: Seq<u8>, i: int) -> Option<int>
    decreases s.len() - i, 1nat,
{
    if 0 <= i < s.len() && spec_is_ctext(s[i]) {
        Some(i + 1)
    } else if quoted_pair(s, i) is Some {
        quoted_pair(s, i)
    } else {
        comment(s, i)
    }
}

/// `*([FWS] comment)`: the position after the comments that stand at `i`.
pub open spec fn comments(s: Seq<u8>, i: int) -> int
    decreases s.len() - i,
{
    let f = opt_fws(s, i);
    match comment(s, f) {
        Some(e) => if 0 <= i <= f < e <= s.len() {
            comments(s, e)
        } else {
            i
        },
        None => i,
    }
}

/// `CFWS = (1*([FWS] comment) [FWS]) / FWS`
pub open spec fn cfws(s: Seq<u8>, i: int) -> Option<int> {
    let c = comments(s, i);
    if c > i {
        Some(opt_fws(s, c))
    } else {
        fws(s, i)
    }
}

/// `[CFWS]`: the position after the comments and white space at `i`, or
/// `i`.
pub open spec fn opt_cfws(s: Seq<u8>, i: int) -> int {
    match cfws(s, i) {
        Some(e) => e,
        None => i,
    }
}

/// `atom = [CFWS] 1*atext [CFWS]`, as the place of its text and the
/// position after it: `(start, end, next)`.
pub open spec fn atom(s: Seq<u8>, i: int) -> Option<(int, int, int)> {
    let a = opt_cfws(s, i);
    let e = span(s, a, Class::Atext);
    if e > a {
        Some((a, e, opt_cfws(s, e)))
    } else {
        None
    }
}

/// `*([FWS] qcontent)` with `qcontent = qtext / quoted-pair`: the
/// contents that stand at `i`, added to `acc`. Folding white space
/// stands for one space, a quoted pair for its second byte.
pub open spec fn quoted_body(s: Seq<u8>, i: int, acc: Seq<u8>) -> (int, Seq<u8>)
    decreases s.len() - i,
{
    let j = opt_fws(s, i);
    let spaced = if fws(s, i) is Some {
        acc.push(32u8)
    } else {
        acc
    };
    if 0 <= i <= j < s.len() {
        if spec_is_qtext(s[j]) {
            quoted_body(s, j + 1, spaced.push(s[j]))
        } else if quoted_pair(s, j) is Some {
            quoted_body(s, j + 2, spaced.push(s[j + 1]))
        } else {
            (i, acc)
        }
    } else {
        (i, acc)
    }
}

/// `quoted-string = [CFWS] DQUOTE *([FWS] qcontent) [FWS] DQUOTE [CFWS]`,
/// as the position after it and the text that it stands for.
pub open spec fn quoted_string(s: Seq<u8>, i: int) -> Option<(int, Seq<u8>)> {
    let a = opt_cfws(s, i);
    if byte_at(s, a, 34) {
        let (e, text) = quoted_body(s, a + 1, Seq::empty());
        let f = opt_fws(s, e);
        if byte_at(s, f, 34) {
            Some(
                (
                    opt_cfws(s, f + 1),
                    if fws(s, e) is Some {
                        text.push(32u8)
                    } else {
                        text
                    },
                ),
            )
        } else {
            None
        }
    } else {
        None
    }
}

/// `word = atom / quoted-string`, as the position after it and its text.
pub open spec fn word(s: Seq<u8>, i: int) -> Option<(int, Seq<u8>)> {
    match atom(s, i) {
        Some((a, e, n)) => Some((n, s.subrange(a, e))),
        None => quoted_string(s, i),
    }
}

/// `*(word / "." / CFWS)`: the rest of a phrase from `i`, its text added
/// to `acc`. Words follow each other without a space between them, a dot
/// stands for itself, comments and white space for nothing.
pub open spec fn phrase_rest(s: Seq<u8>, i: int, acc: Seq<u8>) -> (int, Seq<u8>)
    decreases s.len() - i,
{
    match word(s, i) {
        Some((e, text)) => if 0 <= i < e <= s.len() {
            phrase_rest(s, e, acc + text)
        } else {
            (i, acc)
        },
        None => if byte_at(s, i, 46) {
            phrase_rest(s, i + 1, acc.push(46u8))
        } else {
            match cfws(s, i) {
                Some(e) => if 0 <= i < e <= s.len() {
                    phrase_rest(s, e, acc)
                } else {
                    (i, acc)
                },
                None => (i, acc),
            }
        },
    }
}

/// `phrase = 1*word / obs-phrase`, with
/// `obs-phrase = word *(word / "." / CFWS)`, as the position after it
/// and its text. Every `1*word` is an `obs-phrase`.
pub open spec fn phrase(s: Seq<u8>, i: int) -> Option<(int, Seq<u8>)> {
    match word(s, i) {
        Some((e, text)) => Some(phrase_rest(s, e, text)),
        None => None,
    }
}

/// Matches the rule [`fws`] at `i`.
pub fn match_fws(s: &[u8], i: usize) -> (r: Option<usize>)
    requires
        i <= s.len(),
    ensures
        to_int(r) == fws(s@, i as int),
        r matches Some(e) ==> i < e <= s.len(),
{
    let w = scan(s, i, Class::Wsp);
    if has_byte(s, w, 13) && has_byte(s, w + 1, 10) {
        let w2 = scan(s, w + 2, Class::Wsp);
        if w2 > w + 2 {
            return Some(w2);
        }
    }
    if w > i {
        Some(w)
    } else {
        None
    }
}

/// Skips the folding white space at `i`, if any: see [`opt_fws`].
pub fn skip_fws(s: &[u8], i: usize) -> (e: usize)
    requires
        i <= s.len(),
    ensures
        e == opt_fws(s@, i as int),
        i <= e <= s.len(),
{
    match match_fws(s, i) {
        Some(e) => e,
        None => i,
    }
}

fn match_quoted_pair(s: &[u8], i: usize) -> (r: Option<usize>)
    requires
        i <= s.len(),
    ensures
        to_int(r) == quoted_pair(s@, i as int),
        r matches Some(e) ==> e == i + 2 && e <= s.len(),
{
    if has_byte(s, i, 92) && i + 1 < s.len() && s[i + 1] < 128 {
        Some(i + 2)
    } else {
        None
    }
}

/// Matches the rule [`comment`] at `i`.
pub fn match_comment(s: &[u8], i: usize) -> (r: Option<usize>)
    requires
        i <= s.len(),
    ensures
        to_int(r) == comment(s@, i as int),
        r matches Some(e) ==> i < e <= s.len(),
    decreases s.len() - i, 0nat,
{
    if !has_byte(s, i, 40) {
        return None;
    }
    let mut c: usize = i + 1;
    loop
        invariant
            i < c <= s.len(),
            comment_body(s@, i + 1) == comment_body(s@, c as int),
        ensures
            i < c <= s.len(),
            comment_body(s@, i + 1) == c,
        decreases s.len() - c,
    {
        let f = skip_fws(s, c);
        match match_ccontent(s, f) {
            Some(e) => {
                c = e;
            },
            None => {
                break ;
            },
        }
    }
    let f = skip_fws(s, c);
    if has_byte(s, f, 41) {
        Some(f + 1)
    } else {
        None
    }
}

fn match_ccontent(s: &[u8], i: usize) -> (r: Option<usize>)
    requires
        i <= s.len(),
    ensures
        to_int(r) == ccontent(s@, i as int),
        r matches Some(e) ==> i < e <= s.len(),
    decreases s.len() - i, 1nat,
{
    if i < s.len() && is_ctext(s[i]) {
        Some(i + 1)
    } else {
        match match_quoted_pair(s, i) {
            Some(e) => Some(e),
            None => match_comment(s, i),
        }
    }
}

fn match_comments(s: &[u8], i: usize) -> (e: usize)
    requires
        i <= s.len(),
    ensures
        e == comments(s@, i as int),
        i <= e <= s.len(),
{
    let mut e: usize = i;
    loop
        invariant
            i <= e <= s.len(),
            comments(s@, i as int) == comments(s@, e as int),
        ensures
            i <= e <= s.len(),
            e == comments(s@, i as int),
        decreases s.len() - e,
    {
        let f = skip_fws(s, e);
        match match_comment(s, f) {
            Some(e2) => {
                e = e2;
            },
            None => {
                break ;
            },
        }
    }
    e
}

/// Matches the rule [`cfws`] at `i`.
pub fn match_cfws(s: &[u8], i: usize) -> (r: Option<usize>)
    requires
        i <= s.len(),
    ensures
        to_int(r) == cfws(s@, i as int),
        r matches Some(e) ==> i < e <= s.len(),
{
    let c = match_comments(s, i);
    if c > i {
        Some(skip_fws(s, c))
    } else {
        match_fws(s, i)
    }
}

/// Skips the comments and folding white space at `i`, if any: see
/// [`opt_cfws`].
pub fn skip_cfws(s: &[u8], i: usize) -> (e: usize)
    requires
        i <= s.len(),
    ensures
        e == opt_cfws(s@, i as int),
        i <= e <= s.len(),
{
    match match_cfws(s, i) {
        Some(e) => e,
        None => i,
    }
}

/// Matches the rule [`atom`] at `i`.
pub fn match_atom(s: &[u8], i: usize) -> (r: Option<(usize, usize, usize)>)
    requires
        i <= s.len(),
    ensures
        to_int3(r) == atom(s@, i as int),
        r matches Some((a, e, n)) ==> i <= a < e <= n <= s.len(),
{
    let a = skip_cfws(s, i);
    let e = scan(s, a, Class::Atext);
    if e > a {
        Some((a, e, skip_cfws(s, e)))
    } else {
        None
    }
}

/// A position and a text as mathematical values.
pub open spec fn to_text(r: Option<(usize, Vec<u8>)>) -> Option<(int, Seq<u8>)> {
    match r {
        Some((e, text)) => Some((e as int, text@)),
        None => None,
    }
}

/// Matches the rule [`quoted_string`] at `i`.
pub fn match_quoted_string(s: &[u8], i: usize) -> (r: Option<(usize, Vec<u8>)>)
    requires
        i <= s.len(),
    ensures
        to_text(r) == quoted_string(s@, i as int),
        r matches Some((e, text)) ==> i < e <= s.len() && is_ascii(text@),
{
    let a = skip_cfws(s, i);
    if !has_byte(s, a, 34) {
        return None;
    }
    let mut text: Vec<u8> = Vec::new();
    let mut e: usize = a + 1;
    loop
        invariant
            a < e <= s.len(),
            is_ascii(text@),
            quoted_body(s@, a + 1, Seq::empty()) == quoted_body(s@, e as int, text@),
        ensures
            a < e <= s.len(),
            is_ascii(text@),
            quoted_body(s@, a + 1, Seq::empty()) == (e as int, text@),
        decreases s.len() - e,
    {
        let folded = match_fws(s, e);
        let j = match folded {
            Some(j) => j,
            None => e,
        };
        if j < s.len() && is_qtext(s[j]) {
            if folded.is_some() {
                text.push(32u8);
            }
            text.push(s[j]);
            e = j + 1;
        } else if j < s.len() && s[j] == 92 && j + 1 < s.len() && s[j + 1] < 128 {
            if folded.is_some() {
                text.push(32u8);
            }
            text.push(s[j + 1]);
            e = j + 2;
        } else {
            break ;
        }
    }
    let folded = match_fws(s, e);
    let f = match folded {
        Some(f) => f,
        None => e,
    };
    if has_byte(s, f, 34) {
        if folded.is_some() {
            text.push(32u8);
        }
        Some((skip_cfws(s, f + 1), text))
    } else {
        None
    }
}

/// Matches the rule [`word`] at `i`.
pub fn match_word(s: &[u8], i: usize) -> (r: Option<(usize, Vec<u8>)>)
    requires
        i <= s.len(),
    ensures
        to_text(r) == word(s@, i as int),
        r matches Some((e, text)) ==> i < e <= s.len() && is_ascii(text@),
{
    match match_atom(s, i) {
        Some((a, e, n)) => {
            proof {
                crate::bytes::lemma_span(s@, a as int, Class::Atext);
            }
            Some((n, slice_to_vec(slice_subrange(s, a, e))))
        },
        None => match_quoted_string(s, i),
    }
}

/// Appends the bytes of `more` to `text`.
fn append(text: &mut Vec<u8>, more: &Vec<u8>)
    ensures
        final(text)@ == old(text)@ + more@,
{
    let mut k: usize = 0;
    while k < more.len()
        invariant
            0 <= k <= more.len(),
            text@ == old(text)@ + more@.subrange(0, k as int),
        decreases more.len() - k,
    {
        text.push(more[k]);
        proof {
            assert(more@.subrange(0, k as int).push(more@[k as int]) =~= more@.subrange(
                0,
                k + 1,
            ));
        }
        k = k + 1;
    }
    proof {
        assert(more@.subrange(0, more@.len() as int) =~= more@);
    }
}

/// Matches the rule [`phrase`] at `i`.
pub fn match_phrase(s: &[u8], i: usize) -> (r: Option<(usize, Vec<u8>)>)
    requires
        i <= s.len(),
    ensures
        to_text(r) == phrase(s@, i as int),
        r matches Some((e, text)) ==> i < e <= s.len() && is_ascii(text@),
{
    let (mut e, mut text) = match match_word(s, i) {
        Some((e, text)) => (e, text),
        None => { return None; },
    };
    loop
        invariant
            i < e <= s.len(),
            is_ascii(text@),
            phrase(s@, i as int) == Some(phrase_rest(s@, e as int, text@)),
        ensures
            i < e <= s.len(),
            is_ascii(text@),
            phrase(s@, i as int) == Some((e as int, text@)),
        decreases s.len() - e,
    {
        match match_word(s, e) {
            Some((e2, more)) => {
                append(&mut text, &more);
                e = e2;
            },
            None => {
                if has_byte(s, e, 46) {
                    text.push(46u8);
                    e = e + 1;
                } else {
                    match match_cfws(s, e) {
                        Some(e2) => {
                            e = e2;
                        },
                        None => {
                            break ;
                        },
                    }
                }
            },
        }
    }
    Some((e, text))
}

} // verus!
