//! Function signature parsing.
//!
//! A signature follows `fn` (or `extern fn`):
//!
//! ```text
//! name ( return_type )? ( "with" ("vararg")? ( type name )+ )? ( "do" | "end" )
//! ```
//!
//! If the token after the name is `do` or `end` there is no return type and
//! no parameter list; if it is `with`, the return type is absent and
//! parameters follow; otherwise it is the return type keyword, after which a
//! further `do`/`end`/`with` selects the parameter form.  The parameter list
//! is one or more `type name` pairs and ends at the first `do` or `end`; the
//! `vararg` marker may only stand immediately after `with`.
//!
//! `spec_fn_sig` is the grammar written as a mathematical function of the
//! token stream; `fn_sig` is proved to decide it exactly.

use crate::diag::CompileError;
use crate::token::{
    ident_at, lemma_strs_in_concat, lemma_strs_in_one, str_eq, strs_in, Cursor, TokenKind,
};
use vstd::prelude::*;
use vstd::string::StringExecFns;

verus! {

/// A parsed signature: name, optional return type keyword, `(type, name)`
/// parameter pairs, vararg flag.
#[verifier::ext_equal]
pub struct SigV {
    pub name: Seq<char>,
    pub ret: Option<Seq<char>>,
    pub params: Seq<(Seq<char>, Seq<char>)>,
    pub vararg: bool,
}

/// View of an executable parameter list.
pub open spec fn params_view(v: Seq<(String, String)>) -> Seq<(Seq<char>, Seq<char>)> {
    v.map_values(|p: (String, String)| (p.0@, p.1@))
}

/// View of the executable signature tuple.
pub open spec fn sig_view(s: (String, Option<String>, Vec<(String, String)>, bool)) -> SigV {
    SigV {
        name: s.0@,
        ret: match s.1 {
            Option::None => None,
            Option::Some(t) => Some(t@),
        },
        params: params_view(s.2@),
        vararg: s.3,
    }
}

/// Prepend one parameter to the outcome of parsing the rest of the list.
pub open spec fn pp_cons(
    p: (Seq<char>, Seq<char>),
    rest: Option<(Seq<(Seq<char>, Seq<char>)>, int)>,
) -> Option<(Seq<(Seq<char>, Seq<char>)>, int)> {
    match rest {
        Option::None => None,
        Option::Some((ps, j)) => Some((seq![p] + ps, j)),
    }
}

/// The parameter list production, starting at token `i`: one or more
/// `type name` pairs, terminated by the first `do` or `end` (consumed).
/// Yields the pairs and the position after the terminator.
pub open spec fn spec_params(toks: Seq<crate::token::Token>, i: int) -> Option<
    (Seq<(Seq<char>, Seq<char>)>, int),
>
    decreases toks.len() - i,
{
    match (ident_at(toks, i), ident_at(toks, i + 1), ident_at(toks, i + 2)) {
        (Option::Some(t), Option::Some(n), Option::Some(c)) => {
            if c == "do"@ || c == "end"@ {
                Some((seq![(t, n)], i + 3))
            } else {
                pp_cons((t, n), spec_params(toks, i + 2))
            }
        },
        _ => None,
    }
}

/// What follows `with`: an optional `vararg` marker, then the parameter
/// list.  Yields the pairs, the vararg flag, and the position after the
/// list's terminator.
pub open spec fn spec_with(toks: Seq<crate::token::Token>, i: int) -> Option<
    ((Seq<(Seq<char>, Seq<char>)>, bool), int),
> {
    match ident_at(toks, i) {
        Option::Some(v) => if v == "vararg"@ {
            match spec_params(toks, i + 1) {
                Option::Some((ps, j)) => Some(((ps, true), j)),
                Option::None => None,
            }
        } else {
            match spec_params(toks, i) {
                Option::Some((ps, j)) => Some(((ps, false), j)),
                Option::None => None,
            }
        },
        Option::None => None,
    }
}

/// The whole signature production starting at token `i` (which must be the
/// keyword `fn`).  Yields the signature and the position after the final
/// `do` or `end`.
pub open spec fn spec_fn_sig(toks: Seq<crate::token::Token>, i: int) -> Option<(SigV, int)> {
    if ident_at(toks, i) == Some("fn"@) {
        match (ident_at(toks, i + 1), ident_at(toks, i + 2)) {
            (Option::Some(name), Option::Some(n)) => {
                if n == "do"@ || n == "end"@ {
                    Some((SigV { name, ret: None, params: Seq::empty(), vararg: false }, i + 3))
                } else if n == "with"@ {
                    match spec_with(toks, i + 3) {
                        Option::Some(((ps, va), j)) => Some(
                            (SigV { name, ret: None, params: ps, vararg: va }, j),
                        ),
                        Option::None => None,
                    }
                } else {
                    match ident_at(toks, i + 3) {
                        Option::Some(n2) => {
                            if n2 == "do"@ || n2 == "end"@ {
                                Some(
                                    (
                                        SigV {
                                            name,
                                            ret: Some(n),
                                            params: Seq::empty(),
                                            vararg: false,
                                        },
                                        i + 4,
                                    ),
                                )
                            } else if n2 == "with"@ {
                                match spec_with(toks, i + 4) {
                                    Option::Some(((ps, va), j)) => Some(
                                        (SigV { name, ret: Some(n), params: ps, vararg: va }, j),
                                    ),
                                    Option::None => None,
                                }
                            } else {
                                None
                            }
                        },
                        Option::None => None,
                    }
                }
            },
            _ => None,
        }
    } else {
        None
    }
}

/// Parse the `(type name)+` list, appending pairs to `args`.
fn parse_params(tokens: &mut Cursor, args: &mut Vec<(String, String)>) -> (r: Result<
    (),
    CompileError,
>)
    requires
        old(tokens).wf(),
    ensures
        final(tokens).wf(),
        final(tokens).tokens == old(tokens).tokens,
        final(tokens).index >= old(tokens).index,
        r is Ok ==> (spec_params(old(tokens).tokens@, old(tokens).index as int) matches Some(
            (ps, j),
        ) && params_view(final(args)@) == params_view(old(args)@) + ps
            && j == final(tokens).index as int),
        r is Ok ==> final(tokens).index > old(tokens).index,
        r is Ok ==> strs_in(
            old(tokens).tokens@,
            old(tokens).index as int,
            final(tokens).index as int,
        ) =~= Seq::<crate::ir::GlobalV>::empty(),
        r is Err ==> spec_params(old(tokens).tokens@, old(tokens).index as int) is None,
        r is Err ==> (r->Err_0 is ParseMismatch || r->Err_0 is UnexpectedEof),
        r is Err ==> (r->Err_0 is UnexpectedEof
            <==> final(tokens).index == final(tokens).tokens@.len()),
    decreases old(tokens).remaining(),
{
    let ghost toks = tokens.tokens@;
    let ghost i0 = tokens.index as int;
    let t = tokens.ident_next("[with|do|end|<type>]")?;
    let nm = tokens.ident_next("name")?;
    args.push((t, nm));
    let ghost mid_args = args@;
    let c = tokens.ident_next("[do|end]")?;
    if str_eq(c.as_str(), "do") || str_eq(c.as_str(), "end") {
        proof {
            assert(params_view(args@) =~= params_view(old(args)@) + seq![
                (ident_at(toks, i0)->0, ident_at(toks, i0 + 1)->0),
            ]);
            lemma_strs_in_one(toks, i0);
            lemma_strs_in_one(toks, i0 + 1);
            lemma_strs_in_one(toks, i0 + 2);
            lemma_strs_in_concat(toks, i0, i0 + 1, i0 + 3);
            lemma_strs_in_concat(toks, i0 + 1, i0 + 2, i0 + 3);
        }
        return Ok(());
    }
    tokens.rewind();
    let r = parse_params(tokens, args);
    proof {
        if r is Ok {
            lemma_strs_in_one(toks, i0);
            lemma_strs_in_one(toks, i0 + 1);
            lemma_strs_in_concat(toks, i0, i0 + 1, tokens.index as int);
            lemma_strs_in_concat(toks, i0 + 1, i0 + 2, tokens.index as int);
        }
    }
    proof {
        if r is Ok {
            let rest = spec_params(toks, i0 + 2);
            assert(rest matches Some((ps2, j2)) && params_view(args@) == params_view(mid_args)
                + ps2);
            let ps2 = (rest->0).0;
            assert(spec_params(toks, i0) == Some((seq![(ident_at(toks, i0)->0, ident_at(toks, i0 + 1)->0)] + ps2, (rest->0).1)));
            assert(params_view(mid_args) =~= params_view(old(args)@) + seq![
                (ident_at(toks, i0)->0, ident_at(toks, i0 + 1)->0),
            ]);
            assert(params_view(args@) =~= params_view(old(args)@) + (seq![
                (ident_at(toks, i0)->0, ident_at(toks, i0 + 1)->0),
            ] + ps2));
        }
    }
    r
}

/// Parse what follows `with`: the optional `vararg` marker and the
/// parameter list.
fn params_after_with(tokens: &mut Cursor) -> (r: Result<(Vec<(String, String)>, bool), CompileError>)
    requires
        old(tokens).wf(),
    ensures
        final(tokens).wf(),
        final(tokens).tokens == old(tokens).tokens,
        final(tokens).index >= old(tokens).index,
        r is Ok ==> spec_with(old(tokens).tokens@, old(tokens).index as int) == Some(
            ((params_view((r->Ok_0).0@), (r->Ok_0).1), final(tokens).index as int),
        ),
        r is Ok ==> final(tokens).index > old(tokens).index,
        r is Ok ==> strs_in(
            old(tokens).tokens@,
            old(tokens).index as int,
            final(tokens).index as int,
        ) =~= Seq::<crate::ir::GlobalV>::empty(),
        r is Err ==> spec_with(old(tokens).tokens@, old(tokens).index as int) is None,
        r is Err ==> (r->Err_0 is ParseMismatch || r->Err_0 is UnexpectedEof),
        r is Err ==> (r->Err_0 is UnexpectedEof
            <==> final(tokens).index == final(tokens).tokens@.len()),
{
    let ghost toksw = tokens.tokens@;
    let ghost iw = tokens.index as int;
    let v = tokens.ident_next("<vararg?>")?;
    let vararg = if str_eq(v.as_str(), "vararg") {
        true
    } else {
        tokens.rewind();
        false
    };
    let mut args: Vec<(String, String)> = Vec::new();
    proof {
        assert(params_view(args@) =~= Seq::<(Seq<char>, Seq<char>)>::empty());
    }
    parse_params(tokens, &mut args)?;
    proof {
        lemma_strs_in_one(toksw, iw);
        lemma_strs_in_concat(toksw, iw, iw + 1, tokens.index as int);
        let toks = old(tokens).tokens@;
        let ip: int = if vararg {
            old(tokens).index + 1
        } else {
            old(tokens).index as int
        };
        let ps2 = (spec_params(toks, ip)->0).0;
        assert(Seq::<(Seq<char>, Seq<char>)>::empty() + ps2 =~= ps2);
    }
    Ok((args, vararg))
}

/// Parse a function signature, starting at the keyword `fn`.
///
/// On success the returned tuple is exactly what the grammar yields at the
/// cursor's old position — `(name, return type keyword, parameters, vararg)`
/// — and the cursor stands just past the signature's `do` or `end`; on
/// failure the grammar has no parse there.
pub fn fn_sig(tokens: &mut Cursor) -> (r: Result<
    (String, Option<String>, Vec<(String, String)>, bool),
    CompileError,
>)
    requires
        old(tokens).wf(),
    ensures
        final(tokens).wf(),
        final(tokens).tokens == old(tokens).tokens,
        final(tokens).index >= old(tokens).index,
        r is Ok ==> spec_fn_sig(old(tokens).tokens@, old(tokens).index as int) == Some(
            (sig_view(r->Ok_0), final(tokens).index as int),
        ),
        r is Ok ==> final(tokens).index > old(tokens).index,
        r is Ok ==> strs_in(
            old(tokens).tokens@,
            old(tokens).index as int,
            final(tokens).index as int,
        ) =~= Seq::<crate::ir::GlobalV>::empty(),
        r is Err ==> spec_fn_sig(old(tokens).tokens@, old(tokens).index as int) is None,
        r is Err ==> (r->Err_0 is ParseMismatch || r->Err_0 is UnexpectedEof),
        // the grammar stalled at the end of the stream exactly when the
        // end-of-input error comes back; anywhere else it is a mismatch
        r is Err ==> (r->Err_0 is UnexpectedEof
            <==> final(tokens).index == final(tokens).tokens@.len()),
{
    let ghost toks = tokens.tokens@;
    let ghost i0 = tokens.index as int;
    proof {
        if 0 <= i0 < toks.len() {
            lemma_strs_in_one(toks, i0);
        }
    }
    tokens.expect_ident("fn")?;
    let name = tokens.ident_next("name")?;
    let n = tokens.ident_next("[with|do|end|<type>]")?;
    if str_eq(n.as_str(), "do") || str_eq(n.as_str(), "end") {
        let r = (name, None, Vec::<(String, String)>::new(), false);
        proof {
            assert(params_view(r.2@) =~= Seq::<(Seq<char>, Seq<char>)>::empty());
            assert(sig_view(r) =~= SigV {
                name: name@,
                ret: None,
                params: Seq::empty(),
                vararg: false,
            });
            lemma_strs_in_one(toks, i0 + 1);
            lemma_strs_in_one(toks, i0 + 2);
            lemma_strs_in_concat(toks, i0, i0 + 1, i0 + 3);
            lemma_strs_in_concat(toks, i0 + 1, i0 + 2, i0 + 3);
        }
        return Ok(r);
    }
    if str_eq(n.as_str(), "with") {
        let (params, vararg) = params_after_with(tokens)?;
        let r = (name, None, params, vararg);
        proof {
            assert(sig_view(r) =~= SigV {
                name: name@,
                ret: None,
                params: params_view(params@),
                vararg,
            });
            lemma_strs_in_one(toks, i0 + 1);
            lemma_strs_in_one(toks, i0 + 2);
            lemma_strs_in_concat(toks, i0, i0 + 1, tokens.index as int);
            lemma_strs_in_concat(toks, i0 + 1, i0 + 2, tokens.index as int);
            lemma_strs_in_concat(toks, i0 + 2, i0 + 3, tokens.index as int);
        }
        return Ok(r);
    }
    let n2 = tokens.ident_next("[with|do|end]")?;
    if str_eq(n2.as_str(), "do") || str_eq(n2.as_str(), "end") {
        let r = (name, Some(n), Vec::<(String, String)>::new(), false);
        proof {
            assert(params_view(r.2@) =~= Seq::<(Seq<char>, Seq<char>)>::empty());
            assert(sig_view(r) =~= SigV {
                name: name@,
                ret: Some(n@),
                params: Seq::empty(),
                vararg: false,
            });
            lemma_strs_in_one(toks, i0 + 1);
            lemma_strs_in_one(toks, i0 + 2);
            lemma_strs_in_one(toks, i0 + 3);
            lemma_strs_in_concat(toks, i0, i0 + 1, i0 + 4);
            lemma_strs_in_concat(toks, i0 + 1, i0 + 2, i0 + 4);
            lemma_strs_in_concat(toks, i0 + 2, i0 + 3, i0 + 4);
        }
        return Ok(r);
    }
    if str_eq(n2.as_str(), "with") {
        let (params, vararg) = params_after_with(tokens)?;
        let r = (name, Some(n), params, vararg);
        proof {
            assert(sig_view(r) =~= SigV {
                name: name@,
                ret: Some(n@),
                params: params_view(params@),
                vararg,
            });
            lemma_strs_in_one(toks, i0 + 1);
            lemma_strs_in_one(toks, i0 + 2);
            lemma_strs_in_one(toks, i0 + 3);
            lemma_strs_in_concat(toks, i0, i0 + 1, tokens.index as int);
            lemma_strs_in_concat(toks, i0 + 1, i0 + 2, tokens.index as int);
            lemma_strs_in_concat(toks, i0 + 2, i0 + 3, tokens.index as int);
            lemma_strs_in_concat(toks, i0 + 3, i0 + 4, tokens.index as int);
        }
        return Ok(r);
    }
    // The grammar has no production here; the diagnostic points at the
    // token after the offending keyword, or reports the end of the stream.
    let span = match tokens.this() {
        Ok(t) => t.span,
        Err(e) => {
            return Err(e);
        },
    };
    Err(CompileError::ParseMismatch {
        expected: String::from_str("[with|do|end]"),
        found: TokenKind::Ident(n2),
        span,
    })
}

} // verus!
