//! The line of a command: how a command is written so that it parses to
//! itself.

use vstd::prelude::*;
use crate::smtp::command::{params_view, Command, CommandView, ParamsView};
use crate::smtp::grammar::{
    address_literal, atom, domain, match_address_literal, match_atom, match_domain,
};

verus! {

/// CR LF.
pub open spec fn crlf() -> Seq<u8> {
    seq![13u8, 10u8]
}

/// Whether `v` is an atom as a whole.
pub open spec fn is_atom(v: Seq<u8>) -> bool {
    atom(v, 0) == Some(v.len() as int)
}

/// A string as it is written: as an atom where it is one, and else
/// between double quotes.
pub open spec fn string_text(v: Seq<u8>) -> Seq<u8> {
    if is_atom(v) {
        v
    } else {
        seq![34u8] + v + seq![34u8]
    }
}

/// Whether `d` is a domain as a whole.
pub open spec fn is_domain(d: Seq<u8>) -> bool {
    domain(d, 0) == Some(d.len() as int)
}

/// `d` between brackets.
pub open spec fn bracketed(d: Seq<u8>) -> Seq<u8> {
    seq![91u8] + d + seq![93u8]
}

/// Whether `d` between brackets is an address literal that stands for
/// `d`.
pub open spec fn is_literal(d: Seq<u8>) -> bool {
    address_literal(bracketed(d), 0) == Some((1int, 1 + d.len() as int, 2 + d.len() as int))
}

/// `[IPv6:`, `d` and `]`.
pub open spec fn tagged(d: Seq<u8>) -> Seq<u8> {
    seq![91u8, 73u8, 80u8, 118u8, 54u8, 58u8] + d + seq![93u8]
}

/// The argument of `EHLO` as it is written: a domain as it is; the
/// address of a literal between brackets, with `IPv6:` before it where
/// the brackets alone do not give the address back.
pub open spec fn host_text(d: Seq<u8>) -> Seq<u8> {
    if is_domain(d) {
        d
    } else if is_literal(d) {
        bracketed(d)
    } else {
        tagged(d)
    }
}

/// A path as it is written: between angle brackets, without a source
/// route.
pub open spec fn path_text(p: Seq<u8>) -> Seq<u8> {
    seq![60u8] + p + seq![62u8]
}

/// Parameters as they are written: each after one space, as
/// `keyword=value`.
pub open spec fn params_text(ps: ParamsView) -> Seq<u8>
    decreases ps.len(),
{
    if ps.len() == 0 {
        Seq::empty()
    } else {
        seq![32u8] + ps[0].0 + seq![61u8] + ps[0].1 + params_text(ps.drop_first())
    }
}

/// A verb with one argument.
pub open spec fn line_with(verb: Seq<u8>, argument: Seq<u8>) -> Seq<u8> {
    verb + seq![32u8] + argument + crlf()
}

/// A verb with an optional string.
pub open spec fn line_with_optional(verb: Seq<u8>, string: Seq<u8>) -> Seq<u8> {
    if string.len() == 0 {
        verb + crlf()
    } else {
        line_with(verb, string_text(string))
    }
}

/// The line of a command: the verb in upper case, the arguments, CR LF.
pub open spec fn to_line(c: CommandView) -> Seq<u8> {
    match c {
        CommandView::EHLO { domain } => line_with(seq![69u8, 72u8, 76u8, 79u8], host_text(domain)),
        CommandView::HELO { domain } => line_with(seq![72u8, 69u8, 76u8, 79u8], domain),
        CommandView::MAIL { reverse_path, mail_parameters } => seq![
            77u8,
            65u8,
            73u8,
            76u8,
            32u8,
            70u8,
            82u8,
            79u8,
            77u8,
            58u8,
        ] + path_text(reverse_path) + params_text(mail_parameters) + crlf(),
        CommandView::RCPT { forward_path, rcpt_parameters } => seq![
            82u8,
            67u8,
            80u8,
            84u8,
            32u8,
            84u8,
            79u8,
            58u8,
        ] + path_text(forward_path) + params_text(rcpt_parameters) + crlf(),
        CommandView::DATA => seq![68u8, 65u8, 84u8, 65u8] + crlf(),
        CommandView::RSET => seq![82u8, 83u8, 69u8, 84u8] + crlf(),
        CommandView::VRFY { string } => line_with(seq![86u8, 82u8, 70u8, 89u8], string_text(string)),
        CommandView::EXPN { string } => line_with(seq![69u8, 88u8, 80u8, 78u8], string_text(string)),
        CommandView::HELP { string } => line_with_optional(seq![72u8, 69u8, 76u8, 80u8], string),
        CommandView::NOOP { string } => line_with_optional(seq![78u8, 79u8, 79u8, 80u8], string),
        CommandView::QUIT => seq![81u8, 85u8, 73u8, 84u8] + crlf(),
    }
}

/// Appends `bytes` to `out`.
fn push_all(out: &mut Vec<u8>, bytes: &[u8])
    ensures
        final(out)@ == old(out)@ + bytes@,
{
    let mut k: usize = 0;
    while k < bytes.len()
        invariant
            0 <= k <= bytes.len(),
            out@ == old(out)@ + bytes@.subrange(0, k as int),
        decreases bytes.len() - k,
    {
        out.push(bytes[k]);
        proof {
            assert(bytes@.subrange(0, k as int).push(bytes@[k as int]) =~= bytes@.subrange(
                0,
                k + 1,
            ));
        }
        k = k + 1;
    }
    proof {
        assert(bytes@.subrange(0, bytes@.len() as int) =~= bytes@);
    }
}

/// Appends a string as it is written.
fn push_string(out: &mut Vec<u8>, v: &[u8])
    ensures
        final(out)@ == old(out)@ + string_text(v@),
{
    let whole = match match_atom(v, 0) {
        Some(e) => e == v.len(),
        None => false,
    };
    if whole {
        push_all(out, v);
    } else {
        let ghost before = out@;
        out.push(34u8);
        push_all(out, v);
        out.push(34u8);
        proof {
            assert(out@ =~= before + (seq![34u8] + v@ + seq![34u8]));
        }
    }
}

/// Appends the argument of `EHLO` as it is written.
fn push_host(out: &mut Vec<u8>, d: &[u8])
    ensures
        final(out)@ == old(out)@ + host_text(d@),
{
    let whole = match match_domain(d, 0) {
        Some(e) => e == d.len(),
        None => false,
    };
    if whole {
        push_all(out, d);
        return ;
    }
    let mut bracketed_text: Vec<u8> = Vec::new();
    bracketed_text.push(91u8);
    push_all(&mut bracketed_text, d);
    bracketed_text.push(93u8);
    proof {
        assert(bracketed_text@ =~= bracketed(d@));
    }
    let plain = match match_address_literal(bracketed_text.as_slice(), 0) {
        Some((a, b, n)) => a == 1 && n == bracketed_text.len() && b + 1 == n,
        None => false,
    };
    if plain {
        push_all(out, bracketed_text.as_slice());
    } else {
        let ghost before = out@;
        out.push(91u8);
        out.push(73u8);
        out.push(80u8);
        out.push(118u8);
        out.push(54u8);
        out.push(58u8);
        push_all(out, d);
        out.push(93u8);
        proof {
            assert(out@ =~= before + tagged(d@));
        }
    }
}

/// Appends a path as it is written.
fn push_path(out: &mut Vec<u8>, p: &[u8])
    ensures
        final(out)@ == old(out)@ + path_text(p@),
{
    let ghost before = out@;
    out.push(60u8);
    push_all(out, p);
    out.push(62u8);
    proof {
        assert(out@ =~= before + path_text(p@));
    }
}

/// Appends parameters as they are written.
fn push_params(out: &mut Vec<u8>, params: &Vec<(String, String)>)
    ensures
        final(out)@ == old(out)@ + params_text(params_view(params@)),
{
    let ghost all = params_view(params@);
    let mut k: usize = 0;
    proof {
        assert(all.subrange(0, all.len() as int) =~= all);
    }
    while k < params.len()
        invariant
            0 <= k <= params.len(),
            all == params_view(params@),
            out@ + params_text(all.subrange(k as int, all.len() as int)) == old(out)@
                + params_text(all),
        decreases params.len() - k,
    {
        let ghost before = out@;
        let ghost rest = all.subrange(k as int, all.len() as int);
        out.push(32u8);
        push_all(out, params[k].0.as_str().as_bytes());
        out.push(61u8);
        push_all(out, params[k].1.as_str().as_bytes());
        proof {
            assert(rest[0] == all[k as int]);
            assert(rest.drop_first() =~= all.subrange(k + 1, all.len() as int));
            assert(out@ =~= before + (seq![32u8] + rest[0].0 + seq![61u8] + rest[0].1));
            assert(out@ + params_text(rest.drop_first()) =~= before + params_text(rest));
        }
        k = k + 1;
    }
    proof {
        assert(all.subrange(all.len() as int, all.len() as int) =~= Seq::empty());
        assert(out@ + Seq::<u8>::empty() =~= out@);
    }
}

/// The four letters of a verb.
fn push_verb(out: &mut Vec<u8>, a: u8, b: u8, c: u8, d: u8)
    requires
        old(out)@.len() == 0,
    ensures
        final(out)@ == seq![a, b, c, d],
{
    out.push(a);
    out.push(b);
    out.push(c);
    out.push(d);
    proof {
        assert(out@ =~= seq![a, b, c, d]);
    }
}

impl Command {
    /// The line of the command, CR LF included: the verb in upper case
    /// and the arguments as [`to_line`] writes them.
    ///
    /// The line of a command that was parsed parses to the same command:
    /// see `lemma_round_trip`.
    pub fn to_line(&self) -> (line: Vec<u8>)
        ensures
            line@ == to_line(self@),
    {
        let mut out: Vec<u8> = Vec::new();
        match self {
            Command::EHLO { domain } => {
                push_verb(&mut out, 69, 72, 76, 79);
                out.push(32u8);
                push_host(&mut out, domain.as_str().as_bytes());
            },
            Command::HELO { domain } => {
                push_verb(&mut out, 72, 69, 76, 79);
                out.push(32u8);
                push_all(&mut out, domain.as_str().as_bytes());
            },
            Command::MAIL { reverse_path, mail_parameters } => {
                push_verb(&mut out, 77, 65, 73, 76);
                out.push(32u8);
                out.push(70u8);
                out.push(82u8);
                out.push(79u8);
                out.push(77u8);
                out.push(58u8);
                proof {
                    assert(out@ =~= seq![
                        77u8,
                        65u8,
                        73u8,
                        76u8,
                        32u8,
                        70u8,
                        82u8,
                        79u8,
                        77u8,
                        58u8,
                    ]);
                }
                push_path(&mut out, reverse_path.as_str().as_bytes());
                push_params(&mut out, mail_parameters);
            },
            Command::RCPT { forward_path, rcpt_parameters } => {
                push_verb(&mut out, 82, 67, 80, 84);
                out.push(32u8);
                out.push(84u8);
                out.push(79u8);
                out.push(58u8);
                proof {
                    assert(out@ =~= seq![82u8, 67u8, 80u8, 84u8, 32u8, 84u8, 79u8, 58u8]);
                }
                push_path(&mut out, forward_path.as_str().as_bytes());
                push_params(&mut out, rcpt_parameters);
            },
            Command::DATA => {
                push_verb(&mut out, 68, 65, 84, 65);
            },
            Command::RSET => {
                push_verb(&mut out, 82, 83, 69, 84);
            },
            Command::VRFY { string } => {
                push_verb(&mut out, 86, 82, 70, 89);
                out.push(32u8);
                push_string(&mut out, string.as_str().as_bytes());
            },
            Command::EXPN { string } => {
                push_verb(&mut out, 69, 88, 80, 78);
                out.push(32u8);
                push_string(&mut out, string.as_str().as_bytes());
            },
            Command::HELP { string } => {
                push_verb(&mut out, 72, 69, 76, 80);
                let bytes = string.as_str().as_bytes();
                if bytes.len() != 0 {
                    out.push(32u8);
                    push_string(&mut out, bytes);
                }
            },
            Command::NOOP { string } => {
                push_verb(&mut out, 78, 79, 79, 80);
                let bytes = string.as_str().as_bytes();
                if bytes.len() != 0 {
                    out.push(32u8);
                    push_string(&mut out, bytes);
                }
            },
            Command::QUIT => {
                push_verb(&mut out, 81, 85, 73, 84);
            },
        }
        let ghost body = out@;
        out.push(13u8);
        out.push(10u8);
        proof {
            assert(out@ =~= body + crlf());
            assert(out@ =~= to_line(self@));
        }
        out
    }
}

} // verus!
