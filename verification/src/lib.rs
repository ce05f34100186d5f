pub mod backend;
pub mod error;
pub mod layout;
pub mod raster_command;
pub mod status;
pub mod strutil;
pub mod printable_image;
pub mod printer;
pub mod tape;

use vstd::prelude::*;

verus! {

/// A character that a backslash escapes outside of quotes.
pub open spec fn is_outer_escape(c: char) -> bool {
    c == ' ' || c == '\t' || c == '\n' || c == '\\' || c == '\'' || c == '"'
}

/// A character that a backslash escapes inside double quotes.
pub open spec fn is_dq_escape(c: char) -> bool {
    c == '"' || c == '\\' || c == '$' || c == '`' || c == '\n'
}

/// What a single-quoted stretch yields: everything up to the closing quote
/// verbatim, as (content, rest after the closing quote). An unclosed quote
/// runs to the end of the input.
pub open spec fn spec_unescape_sq(s: Seq<char>) -> (Seq<char>, Seq<char>)
    decreases s.len(),
{
    if s.len() == 0 {
        (Seq::empty(), s)
    } else if s[0] == '\'' {
        (Seq::empty(), s.skip(1))
    } else {
        let (o, r) = spec_unescape_sq(s.skip(1));
        (seq![s[0]] + o, r)
    }
}

/// What a double-quoted stretch yields: its content with backslash escapes
/// resolved, as (content, rest after the closing quote). An unclosed quote
/// runs to the end of the input.
pub open spec fn spec_unescape_dq(s: Seq<char>) -> (Seq<char>, Seq<char>)
    decreases s.len(),
{
    if s.len() == 0 {
        (Seq::empty(), s)
    } else if s[0] == '"' {
        (Seq::empty(), s.skip(1))
    } else if s[0] == '\\' {
        if s.len() >= 2 && is_dq_escape(s[1]) {
            let (o, r) = spec_unescape_dq(s.skip(2));
            (seq![s[1]] + o, r)
        } else {
            let (o, r) = spec_unescape_dq(s.skip(1));
            (seq!['\\'] + o, r)
        }
    } else {
        let (o, r) = spec_unescape_dq(s.skip(1));
        (seq![s[0]] + o, r)
    }
}

proof fn lemma_sq_suffix(s: Seq<char>)
    ensures
        spec_unescape_sq(s).1.len() <= s.len(),
    decreases s.len(),
{
    if s.len() > 0 && s[0] != '\'' {
        lemma_sq_suffix(s.skip(1));
    }
}

proof fn lemma_dq_suffix(s: Seq<char>)
    ensures
        spec_unescape_dq(s).1.len() <= s.len(),
    decreases s.len(),
{
    if s.len() > 0 && s[0] != '"' {
        if s[0] == '\\' && s.len() >= 2 && is_dq_escape(s[1]) {
            lemma_dq_suffix(s.skip(2));
        } else {
            lemma_dq_suffix(s.skip(1));
        }
    }
}

/// What shell unescaping makes of an input: backslash escapes resolved,
/// single-quoted stretches copied verbatim, double-quoted stretches with
/// their own escape set, quotes themselves dropped.
pub open spec fn spec_unescape(s: Seq<char>) -> Seq<char>
    decreases s.len(),
    via spec_unescape_decreases
{
    if s.len() == 0 {
        Seq::empty()
    } else if s[0] == '\\' {
        if s.len() >= 2 && is_outer_escape(s[1]) {
            seq![s[1]] + spec_unescape(s.skip(2))
        } else {
            seq!['\\'] + spec_unescape(s.skip(1))
        }
    } else if s[0] == '\'' {
        let (o, r) = spec_unescape_sq(s.skip(1));
        o + spec_unescape(r)
    } else if s[0] == '"' {
        let (o, r) = spec_unescape_dq(s.skip(1));
        o + spec_unescape(r)
    } else {
        seq![s[0]] + spec_unescape(s.skip(1))
    }
}

#[via_fn]
proof fn spec_unescape_decreases(s: Seq<char>) {
    if s.len() > 0 {
        if s[0] == '\'' {
            lemma_sq_suffix(s.skip(1));
        } else if s[0] == '"' {
            lemma_dq_suffix(s.skip(1));
        }
    }
}

/// Returns whether `c` is escapable by a backslash outside quotes.
fn outer_escape(c: char) -> (r: bool)
    ensures
        r == is_outer_escape(c),
{
    c == ' ' || c == '\t' || c == '\n' || c == '\\' || c == '\'' || c == '"'
}

/// Returns whether `c` is escapable by a backslash inside double quotes.
fn dq_escape(c: char) -> (r: bool)
    ensures
        r == is_dq_escape(c),
{
    c == '"' || c == '\\' || c == '$' || c == '`' || c == '\n'
}

/// Removes shell escaping from a string: backslash escapes for space, tab,
/// newline, backslash and both quotes; single-quoted stretches verbatim;
/// double-quoted stretches with their own escape set.
pub fn unescape_shell_string(s: &str) -> (r: String)
    ensures
        r@ == spec_unescape(s@),
{
    let cs = strutil::chars_of(s);
    let mut out: Vec<char> = Vec::new();
    let mut i: usize = 0;
    proof {
        assert(cs@.skip(0) =~= cs@);
        assert(Seq::<char>::empty() + spec_unescape(cs@) =~= spec_unescape(cs@));
    }
    while i < cs.len()
        invariant
            i <= cs@.len(),
            cs@ == s@,
            spec_unescape(s@) == out@ + spec_unescape(cs@.skip(i as int)),
        decreases cs@.len() - i,
    {
        let ghost i0 = i as int;
        let ghost tail0 = cs@.skip(i0);
        let ghost out0 = out@;
        let c = cs[i];
        if c == '\\' {
            if i + 1 < cs.len() && outer_escape(cs[i + 1]) {
                out.push(cs[i + 1]);
                i = i + 2;
                proof {
                    vstd::seq_lib::lemma_seq_skip_of_skip(cs@, i0, 2);
                    assert(out@ + spec_unescape(cs@.skip(i as int)) =~= out0 + (seq![tail0[1]]
                        + spec_unescape(tail0.skip(2))));
                }
            } else {
                out.push('\\');
                i = i + 1;
                proof {
                    vstd::seq_lib::lemma_seq_skip_of_skip(cs@, i0, 1);
                    assert(out@ + spec_unescape(cs@.skip(i as int)) =~= out0 + (seq!['\\']
                        + spec_unescape(tail0.skip(1))));
                }
            }
        } else if c == '\'' {
            i = i + 1;
            proof {
                vstd::seq_lib::lemma_seq_skip_of_skip(cs@, i0, 1);
            }
            let ghost t0 = cs@.skip(i as int);
            let ghost istart = i as int;
            let ghost base = out@;
            let ghost mut taken: Seq<char> = Seq::empty();
            proof {
                assert(taken + spec_unescape_sq(t0).0 =~= spec_unescape_sq(t0).0);
            }
            loop
                invariant_except_break
                    spec_unescape_sq(t0).0 == taken + spec_unescape_sq(cs@.skip(i as int)).0,
                    spec_unescape_sq(t0).1 == spec_unescape_sq(cs@.skip(i as int)).1,
                invariant
                    istart <= i <= cs@.len(),
                    cs@ == s@,
                    out@ == base + taken,
                ensures
                    istart <= i <= cs@.len(),
                    cs@ == s@,
                    out@ == base + spec_unescape_sq(t0).0,
                    spec_unescape_sq(t0).1 == cs@.skip(i as int),
                decreases cs@.len() - i,
            {
                let ghost j0 = i as int;
                let ghost u0 = cs@.skip(j0);
                if i >= cs.len() {
                    proof {
                        assert(u0 =~= Seq::<char>::empty());
                        assert(out@ =~= base + spec_unescape_sq(t0).0);
                    }
                    break;
                }
                let c2 = cs[i];
                if c2 == '\'' {
                    i = i + 1;
                    proof {
                        vstd::seq_lib::lemma_seq_skip_of_skip(cs@, j0, 1);
                        assert(out@ =~= base + spec_unescape_sq(t0).0);
                    }
                    break;
                }
                out.push(c2);
                i = i + 1;
                proof {
                    vstd::seq_lib::lemma_seq_skip_of_skip(cs@, j0, 1);
                    taken = taken.push(c2);
                    assert(taken + spec_unescape_sq(cs@.skip(i as int)).0 =~= (taken.drop_last()
                        + (seq![u0[0]] + spec_unescape_sq(u0.skip(1)).0)));
                }
            }
            proof {
                assert(spec_unescape(s@) == out@ + spec_unescape(cs@.skip(i as int)));
            }
        } else if c == '"' {
            i = i + 1;
            proof {
                vstd::seq_lib::lemma_seq_skip_of_skip(cs@, i0, 1);
            }
            let ghost t0 = cs@.skip(i as int);
            let ghost istart = i as int;
            let ghost base = out@;
            let ghost mut taken: Seq<char> = Seq::empty();
            proof {
                assert(taken + spec_unescape_dq(t0).0 =~= spec_unescape_dq(t0).0);
            }
            loop
                invariant_except_break
                    spec_unescape_dq(t0).0 == taken + spec_unescape_dq(cs@.skip(i as int)).0,
                    spec_unescape_dq(t0).1 == spec_unescape_dq(cs@.skip(i as int)).1,
                invariant
                    istart <= i <= cs@.len(),
                    cs@ == s@,
                    out@ == base + taken,
                ensures
                    istart <= i <= cs@.len(),
                    cs@ == s@,
                    out@ == base + spec_unescape_dq(t0).0,
                    spec_unescape_dq(t0).1 == cs@.skip(i as int),
                decreases cs@.len() - i,
            {
                let ghost j0 = i as int;
                let ghost u0 = cs@.skip(j0);
                if i >= cs.len() {
                    proof {
                        assert(u0 =~= Seq::<char>::empty());
                        assert(out@ =~= base + spec_unescape_dq(t0).0);
                    }
                    break;
                }
                let c2 = cs[i];
                if c2 == '"' {
                    i = i + 1;
                    proof {
                        vstd::seq_lib::lemma_seq_skip_of_skip(cs@, j0, 1);
                        assert(out@ =~= base + spec_unescape_dq(t0).0);
                    }
                    break;
                }
                if c2 == '\\' {
                    if i + 1 < cs.len() && dq_escape(cs[i + 1]) {
                        out.push(cs[i + 1]);
                        i = i + 2;
                        proof {
                            vstd::seq_lib::lemma_seq_skip_of_skip(cs@, j0, 2);
                            taken = taken.push(u0[1]);
                            assert(taken + spec_unescape_dq(cs@.skip(i as int)).0 =~= (
                            taken.drop_last() + (seq![u0[1]] + spec_unescape_dq(u0.skip(2)).0)));
                        }
                    } else {
                        out.push('\\');
                        i = i + 1;
                        proof {
                            vstd::seq_lib::lemma_seq_skip_of_skip(cs@, j0, 1);
                            taken = taken.push('\\');
                            assert(taken + spec_unescape_dq(cs@.skip(i as int)).0 =~= (
                            taken.drop_last() + (seq!['\\'] + spec_unescape_dq(u0.skip(1)).0)));
                        }
                    }
                } else {
                    out.push(c2);
                    i = i + 1;
                    proof {
                        vstd::seq_lib::lemma_seq_skip_of_skip(cs@, j0, 1);
                        taken = taken.push(c2);
                        assert(taken + spec_unescape_dq(cs@.skip(i as int)).0 =~= (
                        taken.drop_last() + (seq![u0[0]] + spec_unescape_dq(u0.skip(1)).0)));
                    }
                }
            }
            proof {
                assert(spec_unescape(s@) == out@ + spec_unescape(cs@.skip(i as int)));
            }
        } else {
            out.push(c);
            i = i + 1;
            proof {
                vstd::seq_lib::lemma_seq_skip_of_skip(cs@, i0, 1);
                assert(out@ + spec_unescape(cs@.skip(i as int)) =~= out0 + (seq![tail0[0]]
                    + spec_unescape(tail0.skip(1))));
            }
        }
    }
    proof {
        assert(cs@.skip(cs@.len() as int) =~= Seq::<char>::empty());
        assert(out@ =~= spec_unescape(s@));
    }
    strutil::chars_to_string(out.as_slice())
}

} // verus!
