//! Whole-source semantic rules of the front end that need no syntax tree:
//! every instruction-style call (`name!(…)`) must name a known instruction,
//! and an entry function `main` must be declared. The checks work on the
//! token level of the source text; the tree-level analysis proper is an
//! external collaborator.

use vstd::prelude::*;
use crate::syntax::Location;

verus! {

/// A rule the source breaks.
#[derive(Clone, Debug, PartialEq)]
pub enum SemanticError {
    /// No function `main` is declared.
    FunctionMainMissing,
    /// An instruction-style call names something that is not an
    /// instruction; the location is the call's opening parenthesis.
    FunctionNotInstruction(Location, String),
}

/// A compilation failure.
#[derive(Clone, Debug, PartialEq)]
pub enum Error {
    Semantic(SemanticError),
}

/// Horizontal or vertical blank space.
pub open spec fn is_ws(b: u8) -> bool {
    b == 32 || b == 9 || b == 10 || b == 13
}

/// A character an identifier may start with.
pub open spec fn is_ident_start(b: u8) -> bool {
    (97 <= b <= 122) || (65 <= b <= 90) || b == 95
}

/// A character an identifier may continue with.
pub open spec fn is_ident_char(b: u8) -> bool {
    is_ident_start(b) || (48 <= b <= 57)
}

/// `[a, b)` is a maximal identifier in `s`.
pub open spec fn ident_span(s: Seq<char>, a: int, b: int) -> bool {
    &&& 0 <= a < b <= s.len()
    &&& is_ident_start(s[a] as u8)
    &&& (forall|k: int| a <= k < b ==> is_ident_char((#[trigger] s[k]) as u8))
    &&& (a == 0 || !is_ident_char(s[a - 1] as u8))
    &&& (b == s.len() || !is_ident_char(s[b] as u8))
}

/// The characters of `[a, b)` spell `w`, byte for byte.
pub open spec fn word_at(s: Seq<char>, a: int, b: int, w: Seq<u8>) -> bool {
    b - a == w.len() && (forall|k: int| 0 <= k < w.len() ==> ((#[trigger] s[a + k]) as u8) == w[k])
}

pub open spec fn word_fn() -> Seq<u8> {
    seq![102u8, 110u8]
}

pub open spec fn word_main() -> Seq<u8> {
    seq![109u8, 97u8, 105u8, 110u8]
}

pub open spec fn word_dbg() -> Seq<u8> {
    seq![100u8, 98u8, 103u8]
}

pub open spec fn word_assert() -> Seq<u8> {
    seq![97u8, 115u8, 115u8, 101u8, 114u8, 116u8]
}

/// At `i` stands the keyword `fn`, then blank space, then the declared
/// name `[a, b)`.
pub open spec fn fn_decl(s: Seq<char>, i: int, a: int, b: int) -> bool {
    &&& ident_span(s, i, i + 2)
    &&& word_at(s, i, i + 2, word_fn())
    &&& i + 2 < a
    &&& (forall|k: int| i + 2 <= k < a ==> is_ws((#[trigger] s[k]) as u8))
    &&& ident_span(s, a, b)
}

/// The source declares a function `main`.
pub open spec fn declares_main(s: Seq<char>) -> bool {
    exists|i: int, a: int, b: int|
        #[trigger] fn_decl(s, i, a, b) && word_at(s, a, b, word_main())
}

/// An instruction-style call: an identifier `[a, b)` followed at once by
/// `!` and the opening parenthesis.
pub open spec fn inst_call(s: Seq<char>, a: int, b: int) -> bool {
    &&& ident_span(s, a, b)
    &&& b + 1 < s.len()
    &&& (s[b] as u8) == 33
    &&& (s[b + 1] as u8) == 40
}

/// An instruction-style call whose name is no instruction.
pub open spec fn bad_call(s: Seq<char>, a: int, b: int) -> bool {
    &&& inst_call(s, a, b)
    &&& !word_at(s, a, b, word_dbg())
    &&& !word_at(s, a, b, word_assert())
}

/// Count of line breaks in `s`.
pub open spec fn count_nl(s: Seq<char>) -> int
    decreases s.len(),
{
    if s.len() == 0 {
        0
    } else {
        count_nl(s.drop_last()) + if (s.last() as u8) == 10 {
            1int
        } else {
            0int
        }
    }
}

/// The one-based line of position `i`.
pub open spec fn line_of(s: Seq<char>, i: int) -> int {
    1 + count_nl(s.take(i))
}

/// The position where the line of position `i` begins.
pub open spec fn line_start(s: Seq<char>, i: int) -> int
    decreases i,
{
    if i <= 0 {
        0
    } else if (s[i - 1] as u8) == 10 {
        i
    } else {
        line_start(s, i - 1)
    }
}

/// The one-based column of position `i`.
pub open spec fn col_of(s: Seq<char>, i: int) -> int {
    i - line_start(s, i) + 1
}

/// Stepping over one character moves the line and column as a reader
/// expects.
proof fn lemma_pos_step(s: Seq<char>, i: int)
    requires
        0 <= i < s.len(),
    ensures
        line_of(s, i + 1) == line_of(s, i) + if (s[i] as u8) == 10 {
            1int
        } else {
            0int
        },
        col_of(s, i + 1) == if (s[i] as u8) == 10 {
            1int
        } else {
            col_of(s, i) + 1
        },
{
    assert(s.take(i + 1).drop_last() =~= s.take(i));
    assert(s.take(i + 1).last() == s[i]);
    assert(count_nl(s.take(i + 1)) == count_nl(s.take(i)) + if (s[i] as u8) == 10 {
        1int
    } else {
        0int
    });
}

/// A run without line breaks keeps the line and advances the column by its
/// length.
proof fn lemma_pos_run(s: Seq<char>, i: int, k: int)
    requires
        0 <= i <= k <= s.len(),
        forall|t: int| i <= t < k ==> ((#[trigger] s[t]) as u8) != 10,
    ensures
        line_of(s, k) == line_of(s, i),
        col_of(s, k) == col_of(s, i) + (k - i),
    decreases k - i,
{
    if k > i {
        lemma_pos_run(s, i, k - 1);
        lemma_pos_step(s, k - 1);
    }
}

/// One spelled-out byte of a word.
proof fn lemma_word_byte(s: Seq<char>, a: int, b: int, w: Seq<u8>, k: int)
    requires
        word_at(s, a, b, w),
        0 <= k < w.len(),
    ensures
        ((s[a + k]) as u8) == w[k],
{
}

/// Two maximal identifiers with the same start are the same span.
proof fn lemma_span_unique(s: Seq<char>, i: int, j: int, a: int, b: int)
    requires
        ident_span(s, i, j),
        ident_span(s, a, b),
        a == i,
    ensures
        b == j,
{
    if b < j {
        assert(is_ident_char(s[b] as u8));
    }
    if j < b {
        assert(is_ident_char(s[j] as u8));
    }
}

/// Nothing that needs an identifier start begins strictly inside a maximal
/// identifier.
proof fn lemma_no_start_inside(s: Seq<char>, i: int, j: int)
    requires
        ident_span(s, i, j),
    ensures
        forall|i0: int, a: int, b: int|
            i < i0 < j && #[trigger] fn_decl(s, i0, a, b) ==> false,
        forall|a: int, b: int| i < a < j && #[trigger] bad_call(s, a, b) ==> false,
{
    assert forall|i0: int, a: int, b: int|
        i < i0 < j && #[trigger] fn_decl(s, i0, a, b) implies false by {
        assert(ident_span(s, i0, i0 + 2));
        assert(is_ident_char(s[i0 - 1] as u8));
    }
    assert forall|a: int, b: int| i < a < j && #[trigger] bad_call(s, a, b) implies false by {
        assert(ident_span(s, a, b));
        assert(is_ident_char(s[a - 1] as u8));
    }
}

/// Executable byte class tests.
fn ident_start_b(b: u8) -> (r: bool)
    ensures
        r == is_ident_start(b),
{
    (97 <= b && b <= 122) || (65 <= b && b <= 90) || b == 95
}

fn ident_char_b(b: u8) -> (r: bool)
    ensures
        r == is_ident_char(b),
{
    ident_start_b(b) || (48 <= b && b <= 57)
}

fn ws_b(b: u8) -> (r: bool)
    ensures
        r == is_ws(b),
{
    b == 32 || b == 9 || b == 10 || b == 13
}

/// The end of the maximal identifier starting at `i`.
fn ident_end(source: &str, i: usize) -> (j: usize)
    requires
        source.is_ascii(),
        i < source@.len(),
        is_ident_start(source@[i as int] as u8),
    ensures
        i < j <= source@.len(),
        forall|k: int| i <= k < j ==> is_ident_char((#[trigger] source@[k]) as u8),
        j == source@.len() || !is_ident_char(source@[j as int] as u8),
{
    let n = source.unicode_len();
    let mut j = i + 1;
    while j < n
        invariant
            source.is_ascii(),
            n == source@.len(),
            i < j <= n,
            forall|k: int| i <= k < j ==> is_ident_char((#[trigger] source@[k]) as u8),
        ensures
            i < j <= n,
            forall|k: int| i <= k < j ==> is_ident_char((#[trigger] source@[k]) as u8),
            j == n || !is_ident_char(source@[j as int] as u8),
        decreases n - j,
    {
        if !ident_char_b(source.get_ascii(j)) {
            break ;
        }
        j = j + 1;
    }
    j
}

/// The first position at or after `j` that is not blank space.
fn ws_end(source: &str, j: usize) -> (a: usize)
    requires
        source.is_ascii(),
        j <= source@.len(),
    ensures
        j <= a <= source@.len(),
        forall|k: int| j <= k < a ==> is_ws((#[trigger] source@[k]) as u8),
        a == source@.len() || !is_ws(source@[a as int] as u8),
{
    let n = source.unicode_len();
    let mut a = j;
    while a < n
        invariant
            source.is_ascii(),
            n == source@.len(),
            j <= a <= n,
            forall|k: int| j <= k < a ==> is_ws((#[trigger] source@[k]) as u8),
        ensures
            j <= a <= n,
            forall|k: int| j <= k < a ==> is_ws((#[trigger] source@[k]) as u8),
            a == n || !is_ws(source@[a as int] as u8),
        decreases n - a,
    {
        if !ws_b(source.get_ascii(a)) {
            break ;
        }
        a = a + 1;
    }
    a
}

/// Whether `[a, b)` spells exactly the word `w`.
fn span_is(source: &str, a: usize, b: usize, w: &[u8]) -> (r: bool)
    requires
        source.is_ascii(),
        a <= b <= source@.len(),
    ensures
        r == word_at(source@, a as int, b as int, w@),
{
    let m = w.len();
    if b - a != m {
        return false;
    }
    let mut k: usize = 0;
    while k < m
        invariant
            source.is_ascii(),
            a + m == b,
            b <= source@.len(),
            m == w@.len(),
            k <= m,
            forall|t: int| 0 <= t < k ==> ((#[trigger] source@[a + t]) as u8) == w@[t],
        ensures
            k <= m,
            forall|t: int| 0 <= t < k ==> ((#[trigger] source@[a + t]) as u8) == w@[t],
            k < m ==> ((source@[a + k as int]) as u8) != w@[k as int],
        decreases m - k,
    {
        if source.get_ascii(a + k) != w[k] {
            break ;
        }
        k = k + 1;
    }
    if k < m {
        proof {
            if word_at(source@, a as int, b as int, w@) {
                lemma_word_byte(source@, a as int, b as int, w@, k as int);
            }
        }
        false
    } else {
        true
    }
}

/// Checks the token-level semantic rules of a source file: the first
/// instruction-style call whose name is no instruction is reported with the
/// location of its opening parenthesis; otherwise the declaration of `main`
/// is demanded.
#[verifier::rlimit(100)]
#[verifier::spinoff_prover]
pub fn analyze_source(source: &str) -> (r: Result<(), Error>)
    requires
        source.is_ascii(),
        source@.len() < usize::MAX,
    ensures
        (match r {
            Ok(()) => declares_main(source@) && (forall|a: int, b: int|
                !#[trigger] bad_call(source@, a, b)),
            Err(Error::Semantic(SemanticError::FunctionNotInstruction(loc, name))) => exists|
                a: int,
                b: int,
            |
                {
                    &&& #[trigger] bad_call(source@, a, b)
                    &&& (forall|a2: int, b2: int|
                        #[trigger] bad_call(source@, a2, b2) ==> a <= a2)
                    &&& loc.line == line_of(source@, b + 1)
                    &&& loc.column == col_of(source@, b + 1)
                    &&& name@ == source@.subrange(a, b)
                },
            Err(Error::Semantic(SemanticError::FunctionMainMissing)) => !declares_main(source@)
                && (forall|a: int, b: int| !#[trigger] bad_call(source@, a, b)),
        }),
{
    let ghost s = source@;
    let n = source.unicode_len();
    let mut i: usize = 0;
    let mut line: usize = 1;
    let mut col: usize = 1;
    let mut has_main = false;
    // the first offending call: name span and its parenthesis' position
    let mut bad: Option<(usize, usize, usize, usize)> = None;
    while i < n
        invariant
            source.is_ascii(),
            s == source@,
            n == s.len(),
            n < usize::MAX,
            i <= n,
            line == line_of(s, i as int),
            col == col_of(s, i as int),
            1 <= col <= i + 1,
            1 <= line <= i + 1,
            has_main ==> declares_main(s),
            !has_main ==> (forall|i0: int, a: int, b: int|
                #[trigger] fn_decl(s, i0, a, b) && word_at(s, a, b, word_main()) ==> i0 >= i),
            (match bad {
                Some((a, b, l, c)) => {
                    &&& bad_call(s, a as int, b as int)
                    &&& (forall|a2: int, b2: int|
                        #[trigger] bad_call(s, a2, b2) ==> a <= a2)
                    &&& l == line_of(s, b + 1)
                    &&& c == col_of(s, b + 1)
                    &&& a < b <= n
                },
                None => forall|a: int, b: int| #[trigger] bad_call(s, a, b) ==> a >= i,
            }),
        decreases n - i,
    {
        let ch = source.get_ascii(i);
        let preceded_ok = if i == 0 {
            true
        } else {
            !ident_char_b(source.get_ascii(i - 1))
        };
        if ident_start_b(ch) && preceded_ok {
            let j = ident_end(source, i);
            proof {
                assert(ident_span(s, i as int, j as int));
                lemma_no_start_inside(s, i as int, j as int);
            }
            let is_call = j + 1 < n && source.get_ascii(j) == 33 && source.get_ascii(j + 1)
                == 40;
            if is_call {
                let w_dbg: [u8; 3] = [100, 98, 103];
                let w_assert: [u8; 6] = [97, 115, 115, 101, 114, 116];
                let kd = span_is(source, i, j, w_dbg.as_slice());
                let ka = span_is(source, i, j, w_assert.as_slice());
                proof {
                    assert(w_dbg@ =~= word_dbg());
                    assert(w_assert@ =~= word_assert());
                    assert(inst_call(s, i as int, j as int));
                }
                if !(kd || ka) {
                    if bad.is_none() {
                        proof {
                            assert(bad_call(s, i as int, j as int));
                            assert(forall|t: int|
                                i <= t < j + 1 ==> ((#[trigger] s[t]) as u8) != 10);
                            lemma_pos_run(s, i as int, j as int + 1);
                        }
                        bad = Some((i, j, line, col + (j + 1 - i)));
                    }
                } else {
                    proof {
                        if bad is None {
                            assert forall|a2: int, b2: int| #[trigger] bad_call(s, a2, b2)
                                implies a2 >= j by {
                                if a2 == i {
                                    lemma_span_unique(s, i as int, j as int, a2, b2);
                                }
                            }
                        }
                    }
                }
                // no declaration can start at this identifier: a bang, not
                // blank space, follows it
                proof {
                    if !has_main {
                        assert forall|i0: int, a: int, b: int|
                            #[trigger] fn_decl(s, i0, a, b) && word_at(s, a, b, word_main())
                                implies i0 >= j by {
                            if i0 == i {
                                assert(ident_span(s, i0, i0 + 2));
                                lemma_span_unique(s, i as int, j as int, i0, i0 + 2);
                                assert(is_ws(s[i0 + 2] as u8));
                            }
                        }
                    }
                }
            } else {
                let w_fn: [u8; 2] = [102, 110];
                let kf = span_is(source, i, j, w_fn.as_slice());
                if kf {
                    let a = ws_end(source, j);
                    let mut settled = false;
                    if a > j && a < n {
                        let ca = source.get_ascii(a);
                        if ident_start_b(ca) {
                            let b2 = ident_end(source, a);
                            proof {
                                assert(is_ws(s[a - 1] as u8));
                                assert(ident_span(s, a as int, b2 as int));
                                assert(w_fn@ =~= word_fn());
                                assert(fn_decl(s, i as int, a as int, b2 as int));
                            }
                            let w_main: [u8; 4] = [109, 97, 105, 110];
                            let km = span_is(source, a, b2, w_main.as_slice());
                            if km {
                                proof {
                                    assert(w_main@ =~= word_main());
                                    assert(declares_main(s));
                                }
                                has_main = true;
                            } else {
                                // the unique candidate name is not `main`
                                proof {
                                    if !has_main {
                                        assert forall|i0: int, a3: int, b3: int|
                                            #[trigger] fn_decl(s, i0, a3, b3) && word_at(
                                                s,
                                                a3,
                                                b3,
                                                word_main(),
                                            ) implies i0 >= j by {
                                            if i0 == i {
                                                lemma_decl_pins_name(
                                                    s,
                                                    i as int,
                                                    j as int,
                                                    a as int,
                                                    i0,
                                                    a3,
                                                    b3,
                                                );
                                                lemma_span_unique(
                                                    s,
                                                    a as int,
                                                    b2 as int,
                                                    a3,
                                                    b3,
                                                );
                                                assert(w_main@ =~= word_main());
                                            }
                                        }
                                    }
                                }
                            }
                            settled = true;
                        }
                    }
                    if !settled {
                        // no name follows the keyword here, so no
                        // declaration starts at this identifier
                        proof {
                            if !has_main {
                                assert forall|i0: int, a3: int, b3: int|
                                    #[trigger] fn_decl(s, i0, a3, b3) && word_at(
                                        s,
                                        a3,
                                        b3,
                                        word_main(),
                                    ) implies i0 >= j by {
                                    if i0 == i {
                                        lemma_decl_pins_name(
                                            s,
                                            i as int,
                                            j as int,
                                            a as int,
                                            i0,
                                            a3,
                                            b3,
                                        );
                                    }
                                }
                            }
                        }
                    }
                } else {
                    // not the keyword: no declaration starts here
                    proof {
                        if !has_main {
                            assert forall|i0: int, a3: int, b3: int|
                                #[trigger] fn_decl(s, i0, a3, b3) && word_at(
                                    s,
                                    a3,
                                    b3,
                                    word_main(),
                                ) implies i0 >= j by {
                                if i0 == i {
                                    assert(ident_span(s, i0, i0 + 2));
                                    lemma_span_unique(s, i as int, j as int, i0, i0 + 2);
                                    assert(w_fn@ =~= word_fn());
                                }
                            }
                        }
                    }
                }
                // no instruction-style call starts at this identifier: no
                // bang-parenthesis follows it
                proof {
                    if bad is None {
                        assert forall|a2: int, b2: int| #[trigger] bad_call(s, a2, b2)
                            implies a2 >= j by {
                            if a2 == i {
                                assert(ident_span(s, a2, b2));
                                lemma_span_unique(s, i as int, j as int, a2, b2);
                            }
                        }
                    }
                }
            }
            proof {
                assert(forall|t: int| i <= t < j ==> ((#[trigger] s[t]) as u8) != 10);
                lemma_pos_run(s, i as int, j as int);
            }
            col = col + (j - i);
            i = j;
        } else {
            proof {
                lemma_pos_step(s, i as int);
                if !has_main {
                    assert forall|i0: int, a3: int, b3: int|
                        #[trigger] fn_decl(s, i0, a3, b3) && word_at(s, a3, b3, word_main())
                            implies i0 >= i + 1 by {
                        if i0 == i {
                            assert(ident_span(s, i0, i0 + 2));
                        }
                    }
                }
                if bad is None {
                    assert forall|a2: int, b2: int| #[trigger] bad_call(s, a2, b2) implies a2 >= i
                        + 1 by {
                        if a2 == i {
                            assert(ident_span(s, a2, b2));
                        }
                    }
                }
            }
            if ch == 10 {
                line = line + 1;
                col = 1;
            } else {
                col = col + 1;
            }
            i = i + 1;
        }
    }
    if let Some((a, b, l, c)) = bad {
        proof {
            assert(bad_call(s, a as int, b as int));
        }
        let name_str = source.substring_ascii(a, b);
        let name = name_str.to_owned();
        return Err(Error::Semantic(SemanticError::FunctionNotInstruction(
            Location::new(l, c),
            name,
        )));
    }
    if !has_main {
        proof {
            assert forall|i0: int, a: int, b: int|
                #[trigger] fn_decl(s, i0, a, b) && word_at(s, a, b, word_main()) implies false by {
                assert(ident_span(s, i0, i0 + 2));
            }
        }
        return Err(Error::Semantic(SemanticError::FunctionMainMissing));
    }
    proof {
        assert forall|a: int, b: int| #[trigger] bad_call(s, a, b) implies false by {
            assert(ident_span(s, a, b));
        }
    }
    Ok(())
}

/// The name of a declaration starting at a maximal `fn` keyword is pinned:
/// it must start at the first non-blank position after the keyword.
proof fn lemma_decl_pins_name(
    s: Seq<char>,
    i: int,
    j: int,
    a: int,
    i0: int,
    a3: int,
    b3: int,
)
    requires
        ident_span(s, i, j),
        fn_decl(s, i0, a3, b3),
        i0 == i,
        j <= a <= s.len(),
        forall|k: int| j <= k < a ==> is_ws((#[trigger] s[k]) as u8),
        a == s.len() || !is_ws(s[a as int] as u8),
    ensures
        j == i + 2,
        a3 == a,
        a < s.len(),
{
    assert(ident_span(s, i0, i0 + 2));
    lemma_span_unique(s, i, j, i0, i0 + 2);
    assert(j == i + 2);
    // the declaration's name starts at the first non-blank position
    assert(ident_span(s, a3, b3));
    assert(!is_ws(s[a3] as u8));
    if a3 < a {
        assert(is_ws(s[a3] as u8));
    }
    if a < a3 {
        assert(is_ws(s[a] as u8));
        assert(a < s.len() || a3 > s.len());
    }
    assert(a3 == a);
    assert(a3 < b3 <= s.len());
}

} // verus!
