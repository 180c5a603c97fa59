//! Text primitives for the mesh file format: splitting a byte stream into
//! lines, a line into whitespace-separated tokens, a token at its first
//! slash, and reading a decimal integer.

use vstd::prelude::*;

verus! {

/// ASCII whitespace: space, tab, line feed, form feed, carriage return.
pub open spec fn is_space(b: u8) -> bool {
    b == 32 || b == 9 || b == 10 || b == 12 || b == 13
}

/// An ASCII decimal digit.
pub open spec fn is_digit(b: u8) -> bool {
    48 <= b <= 57
}

/// The tokens of `s` from position `i` on, with `cur` the partial token
/// accumulated so far: maximal runs of non-whitespace bytes.
pub open spec fn tok_rec(s: Seq<u8>, i: int, cur: Seq<u8>) -> Seq<Seq<u8>>
    decreases s.len() - i,
{
    if i < 0 || i >= s.len() {
        if cur.len() > 0 {
            seq![cur]
        } else {
            Seq::empty()
        }
    } else if is_space(s[i]) {
        if cur.len() > 0 {
            seq![cur] + tok_rec(s, i + 1, Seq::empty())
        } else {
            tok_rec(s, i + 1, Seq::empty())
        }
    } else {
        tok_rec(s, i + 1, cur.push(s[i]))
    }
}

/// The whitespace-separated tokens of `s`.
pub open spec fn spec_tokens(s: Seq<u8>) -> Seq<Seq<u8>> {
    tok_rec(s, 0, Seq::empty())
}

/// A line with its single trailing carriage return, if any, removed.
pub open spec fn strip_cr(s: Seq<u8>) -> Seq<u8> {
    if s.len() > 0 && s.last() == 13 {
        s.drop_last()
    } else {
        s
    }
}

/// The lines of `s` from position `i` on, with `cur` the partial line
/// accumulated so far: separated by line feeds, each stripped of a trailing
/// carriage return, with no empty final line after a trailing line feed.
pub open spec fn lines_rec(s: Seq<u8>, i: int, cur: Seq<u8>) -> Seq<Seq<u8>>
    decreases s.len() - i,
{
    if i < 0 || i >= s.len() {
        if cur.len() > 0 {
            seq![strip_cr(cur)]
        } else {
            Seq::empty()
        }
    } else if s[i] == 10 {
        seq![strip_cr(cur)] + lines_rec(s, i + 1, Seq::empty())
    } else {
        lines_rec(s, i + 1, cur.push(s[i]))
    }
}

/// The lines of `s`.
pub open spec fn spec_lines(s: Seq<u8>) -> Seq<Seq<u8>> {
    lines_rec(s, 0, Seq::empty())
}

/// The part of a token before its first slash; the whole token when it has
/// none.
pub open spec fn spec_first_field(s: Seq<u8>) -> Seq<u8>
    decreases s.len(),
{
    if s.len() == 0 {
        s
    } else if s[0] == 47 {
        Seq::empty()
    } else {
        seq![s[0]] + spec_first_field(s.drop_first())
    }
}

/// The value of a sequence of decimal digits.
pub open spec fn digits_val(s: Seq<u8>) -> int
    decreases s.len(),
{
    if s.len() == 0 {
        0
    } else {
        digits_val(s.drop_last()) * 10 + (s.last() - 48)
    }
}

/// Whether every byte of `s` is a decimal digit.
pub open spec fn all_digits(s: Seq<u8>) -> bool {
    forall|i: int| 0 <= i < s.len() ==> is_digit(#[trigger] s[i])
}

/// What `str::parse::<i32>` accepts: an optional sign followed by at least
/// one digit, the value within the range of the type.
pub open spec fn spec_parse_i32(s: Seq<u8>) -> Option<int> {
    let ds = if s.len() > 0 && (s[0] == 43 || s[0] == 45) {
        s.drop_first()
    } else {
        s
    };
    let v = if s.len() > 0 && s[0] == 45 {
        -digits_val(ds)
    } else {
        digits_val(ds)
    };
    if ds.len() == 0 || !all_digits(ds) {
        None
    } else if -0x8000_0000 <= v <= 0x7FFF_FFFF {
        Some(v)
    } else {
        None
    }
}

/// The value of a run of digits is never negative.
proof fn lemma_digits_val_nonneg(s: Seq<u8>)
    requires
        all_digits(s),
    ensures
        digits_val(s) >= 0,
    decreases s.len(),
{
    if s.len() > 0 {
        lemma_digits_val_nonneg(s.drop_last());
    }
}

/// Appending digits never decreases the value.
proof fn lemma_digits_val_prefix(s: Seq<u8>, k: int)
    requires
        all_digits(s),
        0 <= k <= s.len(),
    ensures
        digits_val(s.take(k)) <= digits_val(s),
    decreases s.len() - k,
{
    if k < s.len() {
        assert(s.take(k + 1).drop_last() =~= s.take(k));
        assert(all_digits(s.take(k)));
        lemma_digits_val_nonneg(s.take(k));
        assert(digits_val(s.take(k + 1)) == digits_val(s.take(k)) * 10 + (s[k] - 48));
        lemma_digits_val_prefix(s, k + 1);
    } else {
        assert(s.take(k) =~= s);
    }
}

/// Split a byte stream into lines.
pub fn split_lines(data: &Vec<u8>) -> (r: Vec<Vec<u8>>)
    ensures
        r.deep_view() == spec_lines(data@),
{
    let mut out: Vec<Vec<u8>> = Vec::new();
    let mut cur: Vec<u8> = Vec::new();
    let mut i: usize = 0;
    while i < data.len()
        invariant
            i <= data.len(),
            spec_lines(data@) == out.deep_view() + lines_rec(data@, i as int, cur@),
        decreases data.len() - i,
    {
        let b = data[i];
        if b == 10 {
            let ghost gcur = cur@;
            let ghost gout = out.deep_view();
            let mut line = cur;
            if line.len() > 0 && line[line.len() - 1] == 13 {
                line.pop();
            }
            proof {
                assert(line@ == strip_cr(gcur));
            }
            out.push(line);
            cur = Vec::new();
            proof {
                assert(out.deep_view() =~~= gout.push(strip_cr(gcur)));
                assert(gout.push(strip_cr(gcur)) + lines_rec(data@, i as int + 1, Seq::empty())
                    =~= gout + (seq![strip_cr(gcur)] + lines_rec(data@, i as int + 1, Seq::empty())));
            }
        } else {
            cur.push(b);
        }
        i = i + 1;
    }
    let ghost gcur = cur@;
    let ghost gout = out.deep_view();
    if cur.len() > 0 {
        let mut line = cur;
        if line.len() > 0 && line[line.len() - 1] == 13 {
            line.pop();
        }
        proof {
            assert(line@ == strip_cr(gcur));
        }
        out.push(line);
        proof {
            assert(out.deep_view() =~~= gout.push(strip_cr(gcur)));
            assert(gout.push(strip_cr(gcur)) =~= gout + seq![strip_cr(gcur)]);
        }
    } else {
        proof {
            assert(gout + lines_rec(data@, data@.len() as int, gcur) =~= gout);
        }
    }
    out
}

/// Split a line into its whitespace-separated tokens.
pub fn tokenize(line: &Vec<u8>) -> (r: Vec<Vec<u8>>)
    ensures
        r.deep_view() == spec_tokens(line@),
{
    let mut out: Vec<Vec<u8>> = Vec::new();
    let mut cur: Vec<u8> = Vec::new();
    let mut i: usize = 0;
    while i < line.len()
        invariant
            i <= line.len(),
            spec_tokens(line@) == out.deep_view() + tok_rec(line@, i as int, cur@),
        decreases line.len() - i,
    {
        let b = line[i];
        if b == 32 || b == 9 || b == 10 || b == 12 || b == 13 {
            if cur.len() > 0 {
                let ghost gcur = cur@;
                let ghost gout = out.deep_view();
                out.push(cur);
                cur = Vec::new();
                proof {
                    assert(out.deep_view() =~~= gout.push(gcur));
                    assert(gout.push(gcur) + tok_rec(line@, i as int + 1, Seq::empty()) =~= gout + (
                    seq![gcur] + tok_rec(line@, i as int + 1, Seq::empty())));
                }
            } else {
                proof {
                    assert(cur@ =~= Seq::<u8>::empty());
                }
            }
        } else {
            cur.push(b);
        }
        i = i + 1;
    }
    let ghost gcur = cur@;
    let ghost gout = out.deep_view();
    if cur.len() > 0 {
        out.push(cur);
        proof {
            assert(out.deep_view() =~~= gout.push(gcur));
            assert(gout.push(gcur) =~= gout + seq![gcur]);
        }
    } else {
        proof {
            assert(gout + tok_rec(line@, line@.len() as int, gcur) =~= gout);
        }
    }
    out
}

/// With no slash among the first `i` bytes, the first field is the first `i`
/// bytes followed by the first field of the rest.
proof fn lemma_first_field_split(s: Seq<u8>, i: int)
    requires
        0 <= i <= s.len(),
        forall|j: int| 0 <= j < i ==> #[trigger] s[j] != 47,
    ensures
        spec_first_field(s) == s.take(i) + spec_first_field(s.skip(i)),
    decreases i,
{
    if i == 0 {
        assert(s.skip(0) =~= s);
        assert(s.take(0) + spec_first_field(s) =~= spec_first_field(s));
    } else {
        lemma_first_field_split(s.drop_first(), i - 1);
        assert(s.take(i) =~= seq![s[0]] + s.drop_first().take(i - 1));
        assert(s.skip(i) =~= s.drop_first().skip(i - 1));
        assert(seq![s[0]] + (s.drop_first().take(i - 1) + spec_first_field(s.skip(i))) =~= s.take(i)
            + spec_first_field(s.skip(i)));
    }
}

/// The part of a token before its first slash, as `str::split('/')` yields
/// it first.
pub fn first_field(tok: &Vec<u8>) -> (r: Vec<u8>)
    ensures
        r@ == spec_first_field(tok@),
{
    let mut i: usize = 0;
    let mut out: Vec<u8> = Vec::new();
    while i < tok.len()
        invariant
            i <= tok.len(),
            out@ == tok@.take(i as int),
            forall|j: int| 0 <= j < i ==> #[trigger] tok@[j] != 47,
        decreases tok.len() - i,
    {
        let b = tok[i];
        if b == 47 {
            proof {
                lemma_first_field_split(tok@, i as int);
                assert(spec_first_field(tok@.skip(i as int)) =~= Seq::<u8>::empty());
                assert(tok@.take(i as int) + Seq::<u8>::empty() =~= tok@.take(i as int));
            }
            return out;
        }
        out.push(b);
        proof {
            assert(out@ =~= tok@.take(i as int + 1));
        }
        i = i + 1;
    }
    proof {
        lemma_first_field_split(tok@, tok@.len() as int);
        assert(tok@.take(tok@.len() as int) =~= tok@);
        assert(spec_first_field(tok@.skip(tok@.len() as int)) =~= Seq::<u8>::empty());
        assert(tok@ + Seq::<u8>::empty() =~= tok@);
    }
    out
}

/// Read a decimal integer as `str::parse::<i32>` does: an optional sign, at
/// least one digit, nothing else, the value within range.
#[verifier::loop_isolation(false)]
pub fn parse_i32(tok: &Vec<u8>) -> (r: Option<i32>)
    ensures
        ({
            match spec_parse_i32(tok@) {
                Some(v) => r matches Some(n) && n == v,
                None => r is None,
            }
        }),
{
    let ghost whole = tok@;
    let negative = tok.len() > 0 && tok[0] == 45;
    let signed = negative || (tok.len() > 0 && tok[0] == 43);
    let start: usize = if signed {
        1
    } else {
        0
    };
    let ghost ds = tok@.skip(start as int);
    proof {
        if signed {
            assert(tok@.skip(1) =~= tok@.drop_first());
        } else {
            assert(tok@.skip(0) =~= tok@);
        }
    }
    if tok.len() == start {
        return None;
    }
    let mut acc: i64 = 0;
    let mut i: usize = start;
    while i < tok.len()
        invariant
            start <= i <= tok.len(),
            ds == tok@.skip(start as int),
            tok@.len() > start,
            acc == digits_val(ds.take(i - start)),
            all_digits(ds.take(i - start)),
            0 <= acc <= 0x8000_0000,
        decreases tok.len() - i,
    {
        let b = tok[i];
        if !(48 <= b && b <= 57) {
            proof {
                assert(ds[i - start] == b);
                assert(!all_digits(ds));
            }
            return None;
        }
        proof {
            assert(ds.take(i - start + 1).drop_last() =~= ds.take(i - start));
            assert(all_digits(ds.take(i - start + 1)));
        }
        acc = acc * 10 + ((b - 48) as i64);
        i = i + 1;
        if acc > 0x8000_0000 {
            proof {
                // Every longer run of digits has at least this value, so the
                // full number cannot fit either way.
                if all_digits(ds) {
                    lemma_digits_val_prefix(ds, i - start);
                    assert(ds.take(ds.len() as int) =~= ds);
                }
            }
            return None;
        }
    }
    proof {
        assert(ds.take(i - start) =~= ds);
    }
    if negative {
        Some((-acc) as i32)
    } else {
        if acc > 0x7FFF_FFFF {
            None
        } else {
            Some(acc as i32)
        }
    }
}

} // verus!
