//! SMTP commands and the parser of a command line.
//!
//! A command line is a verb of four letters in any mix of upper and lower
//! case, the arguments of that verb, optional white space, and CR LF.
//! [`parse_command`] says what every byte sequence parses to; the
//! executable [`Command::parse`] computes it.

use vstd::prelude::*;
use vstd::utf8::encode_utf8;
use crate::bytes::{
    ascii_string, byte_at, has_byte, lemma_utf8_injective, scan, span, to_int3, to_lower, Class,
};
use crate::smtp::grammar::{
    address_literal, advances, ascii_between, domain, esmtp_param, forward_path, letter_at,
    match_address_literal, match_domain, match_esmtp_param, match_forward_path,
    match_reverse_path, match_string, reverse_path, string,
};
use crate::smtp::reply::Code;

verus! {

/// The parameters of `MAIL` and `RCPT`, as pairs of keyword and value in
/// the order in which their keywords first came. No keyword occurs twice.
pub type ParamsView = Seq<(Seq<u8>, Seq<u8>)>;

/// An SMTP command with its arguments.
#[derive(Debug, PartialEq, Eq, Clone)]
pub enum Command {
    EHLO { domain: String },
    HELO { domain: String },
    MAIL { reverse_path: String, mail_parameters: Vec<(String, String)> },
    RCPT { forward_path: String, rcpt_parameters: Vec<(String, String)> },
    DATA,
    RSET,
    VRFY { string: String },
    EXPN { string: String },
    HELP { string: String },
    NOOP { string: String },
    QUIT,
}

/// A command as the bytes of its arguments.
pub enum CommandView {
    EHLO { domain: Seq<u8> },
    HELO { domain: Seq<u8> },
    MAIL { reverse_path: Seq<u8>, mail_parameters: ParamsView },
    RCPT { forward_path: Seq<u8>, rcpt_parameters: ParamsView },
    DATA,
    RSET,
    VRFY { string: Seq<u8> },
    EXPN { string: Seq<u8> },
    HELP { string: Seq<u8> },
    NOOP { string: Seq<u8> },
    QUIT,
}

/// The bytes of each keyword and each value of a list of parameters.
pub open spec fn params_view(v: Seq<(String, String)>) -> ParamsView {
    Seq::new(v.len(), |i: int| (encode_utf8(v[i].0@), encode_utf8(v[i].1@)))
}

impl View for Command {
    type V = CommandView;

    open spec fn view(&self) -> CommandView {
        match self {
            Command::EHLO { domain } => CommandView::EHLO { domain: encode_utf8(domain@) },
            Command::HELO { domain } => CommandView::HELO { domain: encode_utf8(domain@) },
            Command::MAIL { reverse_path, mail_parameters } => CommandView::MAIL {
                reverse_path: encode_utf8(reverse_path@),
                mail_parameters: params_view(mail_parameters@),
            },
            Command::RCPT { forward_path, rcpt_parameters } => CommandView::RCPT {
                forward_path: encode_utf8(forward_path@),
                rcpt_parameters: params_view(rcpt_parameters@),
            },
            Command::DATA => CommandView::DATA,
            Command::RSET => CommandView::RSET,
            Command::VRFY { string } => CommandView::VRFY { string: encode_utf8(string@) },
            Command::EXPN { string } => CommandView::EXPN { string: encode_utf8(string@) },
            Command::HELP { string } => CommandView::HELP { string: encode_utf8(string@) },
            Command::NOOP { string } => CommandView::NOOP { string: encode_utf8(string@) },
            Command::QUIT => CommandView::QUIT,
        }
    }
}

/// The verbs.
#[derive(Clone, Copy, PartialEq, Eq, Debug)]
pub enum Verb {
    Ehlo,
    Helo,
    Mail,
    Rcpt,
    Data,
    Rset,
    Vrfy,
    Expn,
    Help,
    Noop,
    Quit,
}

/// Whether `s` starts with the four letters whose lower-case forms are
/// given.
pub open spec fn word4(s: Seq<u8>, a: u8, b: u8, c: u8, d: u8) -> bool {
    letter_at(s, 0, a) && letter_at(s, 1, b) && letter_at(s, 2, c) && letter_at(s, 3, d)
}

/// The verb that `s` starts with.
pub open spec fn verb(s: Seq<u8>) -> Option<Verb> {
    if word4(s, 101, 104, 108, 111) {
        Some(Verb::Ehlo)
    } else if word4(s, 104, 101, 108, 111) {
        Some(Verb::Helo)
    } else if word4(s, 109, 97, 105, 108) {
        Some(Verb::Mail)
    } else if word4(s, 114, 99, 112, 116) {
        Some(Verb::Rcpt)
    } else if word4(s, 100, 97, 116, 97) {
        Some(Verb::Data)
    } else if word4(s, 114, 115, 101, 116) {
        Some(Verb::Rset)
    } else if word4(s, 118, 114, 102, 121) {
        Some(Verb::Vrfy)
    } else if word4(s, 101, 120, 112, 110) {
        Some(Verb::Expn)
    } else if word4(s, 104, 101, 108, 112) {
        Some(Verb::Help)
    } else if word4(s, 110, 111, 111, 112) {
        Some(Verb::Noop)
    } else if word4(s, 113, 117, 105, 116) {
        Some(Verb::Quit)
    } else {
        None
    }
}

/// The first position at or after `from` whose keyword is `key`.
pub open spec fn key_index(ps: ParamsView, key: Seq<u8>, from: int) -> Option<int>
    decreases ps.len() - from,
{
    if from < 0 || from >= ps.len() {
        None
    } else if ps[from].0 == key {
        Some(from)
    } else {
        key_index(ps, key, from + 1)
    }
}

/// `ps` with `value` under `key`: in the place of the value that `key`
/// had, or at the end where it had none.
pub open spec fn put(ps: ParamsView, key: Seq<u8>, value: Seq<u8>) -> ParamsView {
    match key_index(ps, key, 0) {
        Some(n) => ps.update(n, (ps[n].0, value)),
        None => ps.push((key, value)),
    }
}

/// The parameters that stand at `i`, each after one space:
/// `*(SP esmtp-param)`, added to `acc`. Gives the end and the parameters.
pub open spec fn parameters(s: Seq<u8>, i: int, acc: ParamsView) -> (int, ParamsView)
    decreases s.len() - i,
{
    if byte_at(s, i, 32) {
        match esmtp_param(s, i + 1) {
            Some((k, v)) => if advances(s, i, v) {
                parameters(s, v, put(acc, s.subrange(i + 1, k), s.subrange(k + 1, v)))
            } else {
                (i, acc)
            },
            None => (i, acc),
        }
    } else {
        (i, acc)
    }
}

/// Whether ` FROM:` follows the verb, in any mix of upper and lower case.
pub open spec fn from_tag(s: Seq<u8>) -> bool {
    byte_at(s, 4, 32) && letter_at(s, 5, 102) && letter_at(s, 6, 114) && letter_at(s, 7, 111)
        && letter_at(s, 8, 109) && byte_at(s, 9, 58)
}

/// Whether ` TO:` follows the verb, in any mix of upper and lower case.
pub open spec fn to_tag(s: Seq<u8>) -> bool {
    byte_at(s, 4, 32) && letter_at(s, 5, 116) && letter_at(s, 6, 111) && byte_at(s, 7, 58)
}

/// The argument of `EHLO`: `SP ( Domain / address-literal )`, as the
/// text of the domain or of the address inside the literal, and the
/// position after it: `(start, end, next)`.
pub open spec fn ehlo_argument(s: Seq<u8>) -> Option<(int, int, int)> {
    if byte_at(s, 4, 32) {
        match domain(s, 5) {
            Some(e) => Some((5, e, e)),
            None => address_literal(s, 5),
        }
    } else {
        None
    }
}

/// The argument of `HELO`: `SP Domain`.
pub open spec fn helo_argument(s: Seq<u8>) -> Option<(int, int, int)> {
    if byte_at(s, 4, 32) {
        match domain(s, 5) {
            Some(e) => Some((5, e, e)),
            None => None,
        }
    } else {
        None
    }
}

/// The argument of `VRFY` and `EXPN`: `SP String`.
pub open spec fn string_argument(s: Seq<u8>) -> Option<(int, int, int)> {
    if byte_at(s, 4, 32) {
        string(s, 5)
    } else {
        None
    }
}

/// The argument of `HELP` and `NOOP`: `[ SP String ]`. Without a string
/// the text is empty and nothing is consumed.
pub open spec fn optional_string_argument(s: Seq<u8>) -> (int, int, int) {
    match string_argument(s) {
        Some(t) => t,
        None => (4, 4, 4),
    }
}

/// The command that the arguments after the verb `v` make, and the
/// position after them. `None` where the arguments are malformed.
pub open spec fn arguments(s: Seq<u8>, v: Verb) -> Option<(CommandView, int)> {
    match v {
        Verb::Ehlo => match ehlo_argument(s) {
            Some((a, b, n)) => Some((CommandView::EHLO { domain: s.subrange(a, b) }, n)),
            None => None,
        },
        Verb::Helo => match helo_argument(s) {
            Some((a, b, n)) => Some((CommandView::HELO { domain: s.subrange(a, b) }, n)),
            None => None,
        },
        Verb::Mail => if from_tag(s) {
            match reverse_path(s, 10) {
                Some((a, b, n)) => Some(
                    (
                        CommandView::MAIL {
                            reverse_path: s.subrange(a, b),
                            mail_parameters: parameters(s, n, Seq::empty()).1,
                        },
                        parameters(s, n, Seq::empty()).0,
                    ),
                ),
                None => None,
            }
        } else {
            None
        },
        Verb::Rcpt => if to_tag(s) {
            match forward_path(s, 8) {
                Some((a, b, n)) => Some(
                    (
                        CommandView::RCPT {
                            forward_path: s.subrange(a, b),
                            rcpt_parameters: parameters(s, n, Seq::empty()).1,
                        },
                        parameters(s, n, Seq::empty()).0,
                    ),
                ),
                None => None,
            }
        } else {
            None
        },
        Verb::Data => Some((CommandView::DATA, 4)),
        Verb::Rset => Some((CommandView::RSET, 4)),
        Verb::Vrfy => match string_argument(s) {
            Some((a, b, n)) => Some((CommandView::VRFY { string: s.subrange(a, b) }, n)),
            None => None,
        },
        Verb::Expn => match string_argument(s) {
            Some((a, b, n)) => Some((CommandView::EXPN { string: s.subrange(a, b) }, n)),
            None => None,
        },
        Verb::Help => {
            let (a, b, n) = optional_string_argument(s);
            Some((CommandView::HELP { string: s.subrange(a, b) }, n))
        },
        Verb::Noop => {
            let (a, b, n) = optional_string_argument(s);
            Some((CommandView::NOOP { string: s.subrange(a, b) }, n))
        },
        Verb::Quit => Some((CommandView::QUIT, 4)),
    }
}

/// Whether nothing but white space (space, tab, form feed), CR and LF
/// stands from `i` to the end of `s`.
pub open spec fn line_ends(s: Seq<u8>, i: int) -> bool {
    let j = span(s, i, Class::Blank);
    j + 2 == s.len() && s[j] == 13 && s[j + 1] == 10
}

/// What a command line parses to: the command, or the number of the
/// reply that rejects it.
///
/// Whether a parameter that the command does not take follows its
/// arguments at `i`: white space and then `keyword=value`.
pub open spec fn unknown_parameter(s: Seq<u8>, i: int) -> bool {
    let j = span(s, i, Class::Blank);
    j > i && esmtp_param(s, j) is Some
}

/// What a command line parses to: the command, or the number of the
/// reply that rejects it.
///
/// - 500 where the line starts with no verb;
/// - 501 where the arguments of the verb are malformed;
/// - 504 where a parameter follows the arguments that the command does
///   not take;
/// - 500 where anything else than white space and CR LF follows the
///   arguments.
///
/// `MAIL` and `RCPT` take parameters under any keyword, each after one
/// space.
pub open spec fn parse_command(s: Seq<u8>) -> Result<CommandView, u16> {
    match verb(s) {
        None => Err(500),
        Some(v) => match arguments(s, v) {
            None => Err(501),
            Some((command, i)) => if line_ends(s, i) {
                Ok(command)
            } else if unknown_parameter(s, i) {
                Err(504)
            } else {
                Err(500)
            },
        },
    }
}

fn has_word4(s: &[u8], a: u8, b: u8, c: u8, d: u8) -> (r: bool)
    ensures
        r == word4(s@, a, b, c, d),
{
    s.len() >= 4 && to_lower(s[0]) == a && to_lower(s[1]) == b && to_lower(s[2]) == c
        && to_lower(s[3]) == d
}

fn match_verb(s: &[u8]) -> (r: Option<Verb>)
    ensures
        r == verb(s@),
        r is Some ==> s.len() >= 4,
{
    if has_word4(s, 101, 104, 108, 111) {
        Some(Verb::Ehlo)
    } else if has_word4(s, 104, 101, 108, 111) {
        Some(Verb::Helo)
    } else if has_word4(s, 109, 97, 105, 108) {
        Some(Verb::Mail)
    } else if has_word4(s, 114, 99, 112, 116) {
        Some(Verb::Rcpt)
    } else if has_word4(s, 100, 97, 116, 97) {
        Some(Verb::Data)
    } else if has_word4(s, 114, 115, 101, 116) {
        Some(Verb::Rset)
    } else if has_word4(s, 118, 114, 102, 121) {
        Some(Verb::Vrfy)
    } else if has_word4(s, 101, 120, 112, 110) {
        Some(Verb::Expn)
    } else if has_word4(s, 104, 101, 108, 112) {
        Some(Verb::Help)
    } else if has_word4(s, 110, 111, 111, 112) {
        Some(Verb::Noop)
    } else if has_word4(s, 113, 117, 105, 116) {
        Some(Verb::Quit)
    } else {
        None
    }
}

/// The string whose bytes are `s[a..b]`.
fn text(s: &[u8], a: usize, b: usize) -> (r: String)
    requires
        a <= b <= s.len(),
        ascii_between(s@, a as int, b as int),
    ensures
        encode_utf8(r@) == s@.subrange(a as int, b as int),
{
    ascii_string(s, a, b)
}

/// Puts `value` under `key`: in the place of the value that `key` had, or
/// at the end where it had none.
pub fn put_param(params: &mut Vec<(String, String)>, key: String, value: String)
    ensures
        params_view(final(params)@) == put(
            params_view(old(params)@),
            encode_utf8(key@),
            encode_utf8(value@),
        ),
{
    let ghost before = params_view(params@);
    let ghost kb = encode_utf8(key@);
    let mut j: usize = 0;
    while j < params.len()
        invariant
            0 <= j <= params.len(),
            params@ == old(params)@,
            before == params_view(params@),
            kb == encode_utf8(key@),
            key_index(before, kb, 0) == key_index(before, kb, j as int),
        decreases params.len() - j,
    {
        proof {
            lemma_utf8_injective(params@[j as int].0@, key@);
        }
        if params[j].0 == key {
            params.set(j, (key, value));
            proof {
                assert(params_view(params@) =~= before.update(
                    j as int,
                    (before[j as int].0, encode_utf8(value@)),
                ));
            }
            return ;
        }
        j = j + 1;
    }
    params.push((key, value));
    proof {
        assert(params_view(params@) =~= before.push((kb, encode_utf8(value@))));
    }
}

fn match_parameters(s: &[u8], i: usize) -> (r: (usize, Vec<(String, String)>))
    requires
        i <= s.len(),
    ensures
        parameters(s@, i as int, Seq::empty()) == (r.0 as int, params_view(r.1@)),
        i <= r.0 <= s.len(),
{
    let mut e: usize = i;
    let mut acc: Vec<(String, String)> = Vec::new();
    proof {
        assert(params_view(acc@) =~= Seq::empty());
    }
    loop
        invariant
            i <= e <= s.len(),
            parameters(s@, i as int, Seq::empty()) == parameters(s@, e as int, params_view(acc@)),
        ensures
            i <= e <= s.len(),
            parameters(s@, i as int, Seq::empty()) == (e as int, params_view(acc@)),
        decreases s.len() - e,
    {
        if !has_byte(s, e, 32) {
            break ;
        }
        match match_esmtp_param(s, e + 1) {
            Some((k, v)) => {
                let key = text(s, e + 1, k);
                let value = text(s, k + 1, v);
                put_param(&mut acc, key, value);
                e = v;
            },
            None => {
                break ;
            },
        }
    }
    (e, acc)
}

fn match_ehlo_argument(s: &[u8]) -> (r: Option<(usize, usize, usize)>)
    requires
        s.len() >= 4,
    ensures
        to_int3(r) == ehlo_argument(s@),
        r matches Some((a, b, n)) ==> a <= b <= n <= s.len() && ascii_between(
            s@,
            a as int,
            b as int,
        ),
{
    if has_byte(s, 4, 32) {
        match match_domain(s, 5) {
            Some(e) => Some((5, e, e)),
            None => match_address_literal(s, 5),
        }
    } else {
        None
    }
}

fn match_helo_argument(s: &[u8]) -> (r: Option<(usize, usize, usize)>)
    requires
        s.len() >= 4,
    ensures
        to_int3(r) == helo_argument(s@),
        r matches Some((a, b, n)) ==> a <= b <= n <= s.len() && ascii_between(
            s@,
            a as int,
            b as int,
        ),
{
    if has_byte(s, 4, 32) {
        match match_domain(s, 5) {
            Some(e) => Some((5, e, e)),
            None => None,
        }
    } else {
        None
    }
}

fn match_string_argument(s: &[u8]) -> (r: Option<(usize, usize, usize)>)
    requires
        s.len() >= 4,
    ensures
        to_int3(r) == string_argument(s@),
        r matches Some((a, b, n)) ==> a <= b <= n <= s.len() && ascii_between(
            s@,
            a as int,
            b as int,
        ),
{
    if has_byte(s, 4, 32) {
        match_string(s, 5)
    } else {
        None
    }
}

fn match_optional_string_argument(s: &[u8]) -> (r: (usize, usize, usize))
    requires
        s.len() >= 4,
    ensures
        optional_string_argument(s@) == (r.0 as int, r.1 as int, r.2 as int),
        r.0 <= r.1 <= r.2 <= s.len(),
        ascii_between(s@, r.0 as int, r.1 as int),
{
    match match_string_argument(s) {
        Some(t) => t,
        None => (4, 4, 4),
    }
}

fn has_from_tag(s: &[u8]) -> (r: bool)
    ensures
        r == from_tag(s@),
{
    s.len() >= 10 && s[4] == 32 && to_lower(s[5]) == 102 && to_lower(s[6]) == 114 && to_lower(
        s[7],
    ) == 111 && to_lower(s[8]) == 109 && s[9] == 58
}

fn has_to_tag(s: &[u8]) -> (r: bool)
    ensures
        r == to_tag(s@),
{
    s.len() >= 8 && s[4] == 32 && to_lower(s[5]) == 116 && to_lower(s[6]) == 111 && s[7] == 58
}

fn match_arguments(s: &[u8], v: Verb) -> (r: Option<(Command, usize)>)
    requires
        s.len() >= 4,
    ensures
        match r {
            Some((c, n)) => arguments(s@, v) == Some((c@, n as int)) && n <= s.len(),
            None => arguments(s@, v) is None,
        },
{
    match v {
        Verb::Ehlo => match match_ehlo_argument(s) {
            Some((a, b, n)) => Some((Command::EHLO { domain: text(s, a, b) }, n)),
            None => None,
        },
        Verb::Helo => match match_helo_argument(s) {
            Some((a, b, n)) => Some((Command::HELO { domain: text(s, a, b) }, n)),
            None => None,
        },
        Verb::Mail => {
            if has_from_tag(s) {
                match match_reverse_path(s, 10) {
                    Some((a, b, n)) => {
                        let (e, params) = match_parameters(s, n);
                        Some(
                            (
                                Command::MAIL {
                                    reverse_path: text(s, a, b),
                                    mail_parameters: params,
                                },
                                e,
                            ),
                        )
                    },
                    None => None,
                }
            } else {
                None
            }
        },
        Verb::Rcpt => {
            if has_to_tag(s) {
                match match_forward_path(s, 8) {
                    Some((a, b, n)) => {
                        let (e, params) = match_parameters(s, n);
                        Some(
                            (
                                Command::RCPT {
                                    forward_path: text(s, a, b),
                                    rcpt_parameters: params,
                                },
                                e,
                            ),
                        )
                    },
                    None => None,
                }
            } else {
                None
            }
        },
        Verb::Data => Some((Command::DATA, 4)),
        Verb::Rset => Some((Command::RSET, 4)),
        Verb::Vrfy => match match_string_argument(s) {
            Some((a, b, n)) => Some((Command::VRFY { string: text(s, a, b) }, n)),
            None => None,
        },
        Verb::Expn => match match_string_argument(s) {
            Some((a, b, n)) => Some((Command::EXPN { string: text(s, a, b) }, n)),
            None => None,
        },
        Verb::Help => {
            let (a, b, n) = match_optional_string_argument(s);
            Some((Command::HELP { string: text(s, a, b) }, n))
        },
        Verb::Noop => {
            let (a, b, n) = match_optional_string_argument(s);
            Some((Command::NOOP { string: text(s, a, b) }, n))
        },
        Verb::Quit => Some((Command::QUIT, 4)),
    }
}

fn has_line_end(s: &[u8], i: usize) -> (r: bool)
    requires
        i <= s.len(),
    ensures
        r == line_ends(s@, i as int),
{
    let j = scan(s, i, Class::Blank);
    s.len() - j == 2 && s[j] == 13 && s[j + 1] == 10
}

fn has_unknown_parameter(s: &[u8], i: usize) -> (r: bool)
    requires
        i <= s.len(),
    ensures
        r == unknown_parameter(s@, i as int),
{
    let j = scan(s, i, Class::Blank);
    j > i && match_esmtp_param(s, j).is_some()
}

impl Command {
    /// Parses one command line, CR LF included.
    ///
    /// Gives the command that [`parse_command`] names for the line, or the
    /// code that it names: 500 for an unknown verb, 501 for malformed
    /// arguments, 504 for a parameter after the arguments that the command
    /// does not take, and 500 for anything else but white space and CR LF
    /// after the arguments.
    pub fn parse(input: &[u8]) -> (r: Result<Command, Code>)
        ensures
            match r {
                Ok(c) => parse_command(input@) == Ok::<CommandView, u16>(c@),
                Err(e) => parse_command(input@) == Err::<CommandView, u16>(e.number()),
            },
    {
        let v = match match_verb(input) {
            Some(v) => v,
            None => { return Err(Code::unrecognized_command()); },
        };
        match match_arguments(input, v) {
            Some((command, i)) => {
                if has_line_end(input, i) {
                    Ok(command)
                } else if has_unknown_parameter(input, i) {
                    Err(Code::parameter_not_implemented())
                } else {
                    Err(Code::unrecognized_command())
                }
            },
            None => Err(Code::bad_parameter()),
        }
    }
}

} // verus!
