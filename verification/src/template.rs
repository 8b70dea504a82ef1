//! Path-template substitution.
//!
//! A path template is a byte string with `{name}` placeholders. At
//! assembly time each placeholder whose name is among the path parameters
//! is replaced by the raw parameter value — no percent-encoding and no
//! re-validation, and substituted values are not scanned again. A
//! placeholder whose name was never supplied survives literally; this is
//! deliberate permissiveness, not an error.

use vstd::prelude::*;

verus! {

use crate::ascii::{LBRACE, RBRACE};
use crate::encode::{find_byte, lemma_find_byte_spec};
use crate::params::ParamMap;

/// One left-to-right pass over `s`: at `{`, the text up to the next `}`
/// is a placeholder name, looked up in `m`; a `{` with no later `}` and
/// every other byte are copied through.
pub open spec fn subst(s: Seq<u8>, m: Map<Seq<u8>, Seq<u8>>) -> Seq<u8>
    decreases s.len(),
{
    if s.len() == 0 {
        Seq::empty()
    } else if s[0] == LBRACE {
        let j = find_byte(s.skip(1), RBRACE);
        if 0 <= j && j < s.len() - 1 {
            let name = s.subrange(1, j + 1);
            if m.contains_key(name) {
                m[name] + subst(s.skip(j + 2), m)
            } else {
                s.take(j + 2) + subst(s.skip(j + 2), m)
            }
        } else {
            seq![s[0]] + subst(s.skip(1), m)
        }
    } else {
        seq![s[0]] + subst(s.skip(1), m)
    }
}

/// The placeholder names a template mentions; the scan does not depend
/// on the parameter mapping.
pub open spec fn placeholders(s: Seq<u8>) -> Set<Seq<u8>>
    decreases s.len(),
{
    if s.len() == 0 {
        Set::empty()
    } else if s[0] == LBRACE {
        let j = find_byte(s.skip(1), RBRACE);
        if 0 <= j && j < s.len() - 1 {
            placeholders(s.skip(j + 2)).insert(s.subrange(1, j + 1))
        } else {
            placeholders(s.skip(1))
        }
    } else {
        placeholders(s.skip(1))
    }
}

/// No `{` and no `}` anywhere in `s`.
pub open spec fn brace_free(s: Seq<u8>) -> bool {
    forall|i: int| 0 <= i < s.len() ==> s[i] != LBRACE && s[i] != RBRACE
}

proof fn lemma_subst_no_close(s: Seq<u8>, m: Map<Seq<u8>, Seq<u8>>)
    requires
        forall|i: int| 0 <= i < s.len() ==> s[i] != RBRACE,
    ensures
        subst(s, m) == s,
    decreases s.len(),
{
    if s.len() == 0 {
        assert(subst(s, m) =~= s);
    } else {
        assert forall|i: int| 0 <= i < s.skip(1).len() implies s.skip(1)[i] != RBRACE by {
            assert(s.skip(1)[i] == s[i + 1]);
        }
        lemma_subst_no_close(s.skip(1), m);
        if s[0] == LBRACE {
            let j = find_byte(s.skip(1), RBRACE);
            lemma_find_byte_spec(s.skip(1), RBRACE);
            if 0 <= j && j < s.len() - 1 {
                assert(s.skip(1)[j] == RBRACE);
                assert(false);
            }
        }
        assert(subst(s, m) =~= s);
    }
}

/// Law: when every placeholder of the template is among the supplied
/// parameters and all values are brace-free, the substituted path holds
/// no placeholder shape: no `{` is ever followed by a `}`.
pub proof fn lemma_subst_complete(s: Seq<u8>, m: Map<Seq<u8>, Seq<u8>>)
    requires
        forall|n: Seq<u8>| placeholders(s).contains(n) ==> m.contains_key(n),
        forall|n: Seq<u8>| m.contains_key(n) ==> brace_free(m[n]),
    ensures
        forall|i: int, j: int|
            0 <= i < j < subst(s, m).len() ==> !(subst(s, m)[i] == LBRACE && subst(s, m)[j]
                == RBRACE),
    decreases s.len(),
{
    let t = subst(s, m);
    if s.len() == 0 {
    } else if s[0] == LBRACE {
        let jj = find_byte(s.skip(1), RBRACE);
        lemma_find_byte_spec(s.skip(1), RBRACE);
        if 0 <= jj && jj < s.len() - 1 {
            let name = s.subrange(1, jj + 1);
            assert(placeholders(s) == placeholders(s.skip(jj + 2)).insert(name));
            assert(m.contains_key(name));
            let v = m[name];
            let rest = subst(s.skip(jj + 2), m);
            assert(t == v + rest);
            assert(forall|n: Seq<u8>|
                placeholders(s.skip(jj + 2)).contains(n) ==> placeholders(s).contains(n));
            lemma_subst_complete(s.skip(jj + 2), m);
            assert forall|i: int, j: int| 0 <= i < j < t.len() implies !(t[i] == LBRACE && t[j]
                == RBRACE) by {
                if i < v.len() {
                    assert(t[i] == v[i]);
                    assert(brace_free(v));
                } else {
                    assert(t[i] == rest[i - v.len()]);
                    assert(t[j] == rest[j - v.len()]);
                }
            }
        } else {
            assert(jj == s.len() - 1);
            assert forall|i: int| 0 <= i < s.skip(1).len() implies s.skip(1)[i] != RBRACE by {
                assert(s.skip(1)[i] != RBRACE);
            }
            lemma_subst_no_close(s.skip(1), m);
            assert(t == seq![s[0]] + s.skip(1));
            assert forall|i: int, j: int| 0 <= i < j < t.len() implies !(t[i] == LBRACE && t[j]
                == RBRACE) by {
                assert(t[j] == s.skip(1)[j - 1]);
            }
        }
    } else {
        assert(placeholders(s) == placeholders(s.skip(1)));
        lemma_subst_complete(s.skip(1), m);
        let rest = subst(s.skip(1), m);
        assert(t == seq![s[0]] + rest);
        assert forall|i: int, j: int| 0 <= i < j < t.len() implies !(t[i] == LBRACE && t[j]
            == RBRACE) by {
            if i > 0 {
                assert(t[i] == rest[i - 1]);
                assert(t[j] == rest[j - 1]);
            }
        }
    }
}

/// `p` occurs in `t` as a contiguous substring.
pub open spec fn contains_sub(t: Seq<u8>, p: Seq<u8>) -> bool {
    exists|i: int|
        0 <= i && i + p.len() <= t.len() && #[trigger] t.subrange(i, i + p.len() as int) == p
}

proof fn lemma_contains_sub_shift(u: Seq<u8>, t: Seq<u8>, p: Seq<u8>)
    requires
        contains_sub(t, p),
    ensures
        contains_sub(u + t, p),
{
    let i = choose|i: int|
        0 <= i && i + p.len() <= t.len() && #[trigger] t.subrange(i, i + p.len() as int) == p;
    assert((u + t).subrange(u.len() + i, u.len() + i + p.len()) =~= t.subrange(i, i + p.len()));
}

/// Law: a placeholder whose name is not among the supplied parameters
/// survives substitution literally, braces included.
pub proof fn lemma_subst_missing(s: Seq<u8>, m: Map<Seq<u8>, Seq<u8>>, n: Seq<u8>)
    requires
        placeholders(s).contains(n),
        !m.contains_key(n),
    ensures
        contains_sub(subst(s, m), seq![LBRACE] + n + seq![RBRACE]),
    decreases s.len(),
{
    let p = seq![LBRACE] + n + seq![RBRACE];
    if s.len() == 0 {
    } else if s[0] == LBRACE {
        let jj = find_byte(s.skip(1), RBRACE);
        lemma_find_byte_spec(s.skip(1), RBRACE);
        if 0 <= jj && jj < s.len() - 1 {
            let name = s.subrange(1, jj + 1);
            assert(placeholders(s) == placeholders(s.skip(jj + 2)).insert(name));
            if name == n {
                let t = subst(s, m);
                assert(t == s.take(jj + 2) + subst(s.skip(jj + 2), m));
                assert(s.skip(1)[jj] == RBRACE);
                assert(s.take(jj + 2) =~= p) by {
                    assert forall|k: int| 0 <= k < jj + 2 implies s.take(jj + 2)[k] == p[k] by {
                        if k == 0 {
                        } else if k < jj + 1 {
                            assert(p[k] == n[k - 1]);
                            assert(n[k - 1] == s[k]);
                        } else {
                            assert(s[jj + 1] == s.skip(1)[jj]);
                        }
                    }
                }
                assert(t.subrange(0, p.len() as int) =~= p);
                assert(contains_sub(t, p));
            } else {
                assert(placeholders(s.skip(jj + 2)).contains(n));
                lemma_subst_missing(s.skip(jj + 2), m, n);
                if m.contains_key(name) {
                    lemma_contains_sub_shift(m[name], subst(s.skip(jj + 2), m), p);
                } else {
                    lemma_contains_sub_shift(s.take(jj + 2), subst(s.skip(jj + 2), m), p);
                }
            }
        } else {
            assert(placeholders(s) == placeholders(s.skip(1)));
            lemma_subst_missing(s.skip(1), m, n);
            lemma_contains_sub_shift(seq![s[0]], subst(s.skip(1), m), p);
        }
    } else {
        assert(placeholders(s) == placeholders(s.skip(1)));
        lemma_subst_missing(s.skip(1), m, n);
        lemma_contains_sub_shift(seq![s[0]], subst(s.skip(1), m), p);
    }
}

/// Appends `s[a..b]` to `out`.
pub fn append_range(out: &mut Vec<u8>, s: &Vec<u8>, a: usize, b: usize)
    requires
        a <= b <= s@.len(),
    ensures
        final(out)@ == old(out)@ + s@.subrange(a as int, b as int),
{
    let mut i: usize = a;
    while i < b
        invariant
            a <= i <= b <= s@.len(),
            out@ == old(out)@ + s@.subrange(a as int, i as int),
        decreases b - i,
    {
        out.push(s[i]);
        proof {
            assert(s@.subrange(a as int, i + 1) =~= s@.subrange(a as int, i as int).push(
                s@[i as int],
            ));
        }
        i += 1;
    }
    proof {
        assert(s@.subrange(a as int, a as int) =~= Seq::<u8>::empty());
    }
}

/// Scans `s` from `start` for byte `b`; reports the first position, and
/// relates it to the spec-level scan of the tail.
#[verifier::loop_isolation(false)]
fn scan_byte(s: &Vec<u8>, start: usize, b: u8) -> (r: Option<usize>)
    requires
        start <= s@.len(),
    ensures
        match r {
            Some(p) => start <= p < s@.len() && find_byte(s@.skip(start as int), b) == p - start,
            None => find_byte(s@.skip(start as int), b) == s@.len() - start,
        },
{
    let ghost tail = s@.skip(start as int);
    proof {
        lemma_find_byte_spec(tail, b);
    }
    let mut i: usize = start;
    while i < s.len()
        invariant
            start <= i <= s@.len(),
            tail == s@.skip(start as int),
            forall|j: int| start <= j < i ==> s@[j] != b,
        decreases s@.len() - i,
    {
        if s[i] == b {
            proof {
                let k = i - start;
                assert(tail[k] == s@[k + start]);
                assert(tail[k] == b);
                let f = find_byte(tail, b);
                if f < k {
                    assert(tail[f] == s@[f + start]);
                    assert(s@[f + start] == b);
                }
                assert(f == k);
            }
            return Some(i);
        }
        i += 1;
    }
    proof {
        let f = find_byte(tail, b);
        if f < tail.len() {
            assert(tail[f] == s@[f + start]);
            assert(s@[f + start] == b);
        }
    }
    None
}

/// Substitutes the path parameters into `template`, one scan, left to
/// right; an unsupplied placeholder survives literally.
pub fn substitute(template: &Vec<u8>, params: &ParamMap) -> (r: Vec<u8>)
    requires
        params.wf(),
    ensures
        r@ == subst(template@, params.as_map()),
{
    let ghost m = params.as_map();
    let mut out: Vec<u8> = Vec::new();
    let mut i: usize = 0;
    proof {
        assert(template@.skip(0) =~= template@);
    }
    while i < template.len()
        invariant
            params.wf(),
            m == params.as_map(),
            i <= template@.len(),
            out@ + subst(template@.skip(i as int), m) == subst(template@, m),
        decreases template@.len() - i,
    {
        let ghost tail = template@.skip(i as int);
        proof {
            assert(tail[0] == template@[i as int]);
            assert(tail.skip(1) =~= template@.skip(i + 1));
        }
        let b = template[i];
        let mut plain = true;
        if b == LBRACE {
            match scan_byte(template, i + 1, RBRACE) {
                Some(close) => {
                    plain = false;
                    let ghost j = close - i - 1;
                    proof {
                        assert(0 <= j && j < tail.len() - 1);
                        assert(tail.subrange(1, j + 1) =~= template@.subrange(
                            i + 1,
                            close as int,
                        ));
                    }
                    let mut name: Vec<u8> = Vec::new();
                    append_range(&mut name, template, i + 1, close);
                    match params.get(&name) {
                        Some(value) => {
                            let ghost before = out@;
                            let value_copy: Vec<u8> = value.clone();
                            append_range(&mut out, &value_copy, 0, value_copy.len());
                            proof {
                                assert(value_copy@.subrange(0, value_copy@.len() as int)
                                    =~= value_copy@);
                                assert(out@ == before + m[name@]);
                            }
                        },
                        None => {
                            let ghost before = out@;
                            append_range(&mut out, template, i, close + 1);
                            proof {
                                assert(template@.subrange(i as int, close + 1) =~= tail.take(
                                    j + 2,
                                ));
                                assert(out@ == before + tail.take(j + 2));
                            }
                        },
                    }
                    proof {
                        assert(tail.skip(j + 2) =~= template@.skip(close + 1));
                        assert(subst(tail, m) == (if m.contains_key(tail.subrange(1, j + 1)) {
                            m[tail.subrange(1, j + 1)] + subst(tail.skip(j + 2), m)
                        } else {
                            tail.take(j + 2) + subst(tail.skip(j + 2), m)
                        }));
                    }
                    i = close + 1;
                    proof {
                        assert(out@ + subst(template@.skip(i as int), m) =~= subst(
                            template@,
                            m,
                        ));
                    }
                },
                None => {
                    proof {
                        assert(find_byte(tail.skip(1), RBRACE) == tail.len() - 1);
                    }
                },
            }
        }
        if plain {
            out.push(b);
            proof {
                assert(subst(tail, m) == seq![tail[0]] + subst(tail.skip(1), m));
            }
            i += 1;
            proof {
                assert(out@ + subst(template@.skip(i as int), m) =~= subst(template@, m));
            }
        }
    }
    proof {
        assert(template@.skip(template@.len() as int) =~= Seq::<u8>::empty());
        assert(out@ =~= subst(template@, m));
    }
    out
}

} // verus!
