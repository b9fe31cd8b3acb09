//! The invocation surface: recognized flags, the one positional slot, and the
//! parser that turns a raw token list into a validated invocation.
//!
//! Tokens arrive as raw byte strings, exactly as the operating system hands
//! them to the process.  A token of at least two bytes that starts with `-`
//! is a flag; every other token is positional.  Recognized flags are
//! `--verbose`/`-v`, `--preview`/`-p`, `--tui`/`-t`, the help switches
//! `--help`/`-h`, and `--version`.  Exactly one positional token is required;
//! it is handed to the single-character validator.

use crate::one_char::spec_one_char;
use crate::one_char::OneChar;
use crate::one_char::OneCharError;
use vstd::prelude::*;
use vstd::utf8::encode_utf8;
use vstd::utf8::is_ascii_chars_encode_utf8;

verus! {

/// The parsed, validated result of one command-line call.
#[derive(Clone, Copy, Debug, PartialEq, Eq, Structural)]
pub struct Args {
    /// Show all matching font styles rather than a collapsed summary.
    pub verbose: bool,
    /// Open a browser-based visualization of the character.
    pub preview: bool,
    /// Launch the interactive terminal interface.  Downstream consumers
    /// disable preview mode and ignore the verbose flag when this is set;
    /// the parser itself records the raw flags unchanged.
    pub tui: bool,
    /// The single character to look up.
    pub char: OneChar,
}

/// What a token list asks for: a validated invocation, or the help or
/// version text (printed by the surrounding program with exit code zero).
#[derive(Clone, Copy, Debug, PartialEq, Eq, Structural)]
pub enum Parsed {
    /// All flags matched and the positional token held one scalar value.
    Invocation(Args),
    /// A help switch was present; nothing else was examined.
    Help,
    /// `--version` was present and no help switch was.
    Version,
}

/// A fault in the shape of the token list, detected before the positional
/// token is validated.
#[derive(Clone, Copy, Debug, PartialEq, Eq, Structural)]
pub enum UsageError {
    /// No positional token was given.
    MissingPositional,
    /// Two or more positional tokens were given.
    DuplicatePositional,
    /// The token at the given index looks like a flag but is not recognized.
    UnknownFlag(usize),
}

/// Why a token list yields no invocation.
#[derive(Clone, Copy, Debug, PartialEq, Eq, Structural)]
pub enum ArgsError {
    /// The token list itself is malformed.
    Usage(UsageError),
    /// The positional token, at the given index, failed single-character
    /// validation.
    Character(usize, OneCharError),
}

/// The byte strings of a token list.
pub open spec fn token_views(tokens: Seq<Vec<u8>>) -> Seq<Seq<u8>> {
    Seq::new(tokens.len(), |i: int| tokens[i]@)
}

/// A token that is treated as a flag: at least two bytes, starting with `-`.
pub open spec fn flag_like(t: Seq<u8>) -> bool {
    t.len() >= 2 && t[0] == 0x2du8
}

/// A positional token: anything not treated as a flag.
pub open spec fn positional(t: Seq<u8>) -> bool {
    !flag_like(t)
}

/// The verbose switch.
pub open spec fn verbose_flag(t: Seq<u8>) -> bool {
    t == encode_utf8("-v"@) || t == encode_utf8("--verbose"@)
}

/// The preview switch.
pub open spec fn preview_flag(t: Seq<u8>) -> bool {
    t == encode_utf8("-p"@) || t == encode_utf8("--preview"@)
}

/// The terminal-interface switch.
pub open spec fn tui_flag(t: Seq<u8>) -> bool {
    t == encode_utf8("-t"@) || t == encode_utf8("--tui"@)
}

/// The help switch.
pub open spec fn help_flag(t: Seq<u8>) -> bool {
    t == encode_utf8("-h"@) || t == encode_utf8("--help"@)
}

/// The version switch.
pub open spec fn version_flag(t: Seq<u8>) -> bool {
    t == encode_utf8("--version"@)
}

/// A flag-shaped token that no recognized switch matches.
pub open spec fn unknown_flag(t: Seq<u8>) -> bool {
    &&& flag_like(t)
    &&& !verbose_flag(t)
    &&& !preview_flag(t)
    &&& !tui_flag(t)
    &&& !help_flag(t)
    &&& !version_flag(t)
}

/// Some token of the list is a help switch.
pub open spec fn has_help(s: Seq<Seq<u8>>) -> bool {
    exists|i: int| 0 <= i < s.len() && help_flag(s[i])
}

/// Some token of the list is the version switch.
pub open spec fn has_version(s: Seq<Seq<u8>>) -> bool {
    exists|i: int| 0 <= i < s.len() && version_flag(s[i])
}

/// Some token of the list is the verbose switch.
pub open spec fn has_verbose(s: Seq<Seq<u8>>) -> bool {
    exists|i: int| 0 <= i < s.len() && verbose_flag(s[i])
}

/// Some token of the list is the preview switch.
pub open spec fn has_preview(s: Seq<Seq<u8>>) -> bool {
    exists|i: int| 0 <= i < s.len() && preview_flag(s[i])
}

/// Some token of the list is the terminal-interface switch.
pub open spec fn has_tui(s: Seq<Seq<u8>>) -> bool {
    exists|i: int| 0 <= i < s.len() && tui_flag(s[i])
}

/// Some token of the list is an unrecognized flag.
pub open spec fn has_unknown_flag(s: Seq<Seq<u8>>) -> bool {
    exists|i: int| 0 <= i < s.len() && unknown_flag(s[i])
}

/// Some token of the list is positional.
pub open spec fn has_positional(s: Seq<Seq<u8>>) -> bool {
    exists|i: int| 0 <= i < s.len() && positional(s[i])
}

/// Two distinct tokens of the list are positional.
pub open spec fn has_duplicate_positional(s: Seq<Seq<u8>>) -> bool {
    exists|i: int, j: int| 0 <= i < j < s.len() && positional(s[i]) && positional(s[j])
}

/// The token at index `p` is the one and only positional token of the list.
pub open spec fn unique_positional_at(s: Seq<Seq<u8>>, p: int) -> bool {
    &&& 0 <= p < s.len()
    &&& positional(s[p])
    &&& forall|k: int| 0 <= k < s.len() && k != p ==> !positional(s[k])
}

/// What parsing yields once the list is known to hold no help or version
/// switch, no unrecognized flag, and exactly one positional token, at `p`.
pub open spec fn parsed_with_positional(s: Seq<Seq<u8>>, p: int) -> Result<Parsed, ArgsError> {
    match spec_one_char(s[p]) {
        Ok(c) => Ok(
            Parsed::Invocation(
                Args {
                    verbose: has_verbose(s),
                    preview: has_preview(s),
                    tui: has_tui(s),
                    char: OneChar(c),
                },
            ),
        ),
        Err(e) => Err(ArgsError::Character(p as usize, e)),
    }
}

/// Every recognized switch is flag-shaped: its encoding has at least two
/// bytes and starts with `-`.
proof fn switch_flag_like(t: Seq<u8>)
    ensures
        verbose_flag(t) ==> flag_like(t),
        preview_flag(t) ==> flag_like(t),
        tui_flag(t) ==> flag_like(t),
        help_flag(t) ==> flag_like(t),
        version_flag(t) ==> flag_like(t),
{
    reveal_strlit("-v");
    reveal_strlit("--verbose");
    reveal_strlit("-p");
    reveal_strlit("--preview");
    reveal_strlit("-t");
    reveal_strlit("--tui");
    reveal_strlit("-h");
    reveal_strlit("--help");
    reveal_strlit("--version");
    is_ascii_chars_encode_utf8("-v"@);
    is_ascii_chars_encode_utf8("--verbose"@);
    is_ascii_chars_encode_utf8("-p"@);
    is_ascii_chars_encode_utf8("--preview"@);
    is_ascii_chars_encode_utf8("-t"@);
    is_ascii_chars_encode_utf8("--tui"@);
    is_ascii_chars_encode_utf8("-h"@);
    is_ascii_chars_encode_utf8("--help"@);
    is_ascii_chars_encode_utf8("--version"@);
}

/// True when the token's bytes are exactly the UTF-8 encoding of `pat`.
fn token_is(t: &Vec<u8>, pat: &str) -> (r: bool)
    ensures
        r == (t@ == encode_utf8(pat@)),
{
    let pb: &[u8] = pat.as_bytes();
    if t.len() != pb.len() {
        return false;
    }
    let mut j: usize = 0;
    while j < t.len()
        invariant
            j <= t@.len(),
            t@.len() == pb@.len(),
            pb@ == encode_utf8(pat@),
            forall|k: int| 0 <= k < j ==> t@[k] == pb@[k],
        decreases t@.len() - j,
    {
        if t[j] != pb[j] {
            return false;
        }
        j = j + 1;
    }
    proof {
        assert(t@ =~= pb@);
    }
    true
}

/// True when the token is flag-shaped: at least two bytes, starting with `-`.
fn is_flag_like(t: &Vec<u8>) -> (r: bool)
    ensures
        r == flag_like(t@),
{
    t.len() >= 2 && t[0] == 0x2d
}

/// True when the token is the verbose switch.
fn is_verbose_flag(t: &Vec<u8>) -> (r: bool)
    ensures
        r == verbose_flag(t@),
{
    token_is(t, "-v") || token_is(t, "--verbose")
}

/// True when the token is the preview switch.
fn is_preview_flag(t: &Vec<u8>) -> (r: bool)
    ensures
        r == preview_flag(t@),
{
    token_is(t, "-p") || token_is(t, "--preview")
}

/// True when the token is the terminal-interface switch.
fn is_tui_flag(t: &Vec<u8>) -> (r: bool)
    ensures
        r == tui_flag(t@),
{
    token_is(t, "-t") || token_is(t, "--tui")
}

/// True when the token is a help switch.
fn is_help_flag(t: &Vec<u8>) -> (r: bool)
    ensures
        r == help_flag(t@),
{
    token_is(t, "-h") || token_is(t, "--help")
}

/// True when the token is the version switch.
fn is_version_flag(t: &Vec<u8>) -> (r: bool)
    ensures
        r == version_flag(t@),
{
    token_is(t, "--version")
}

/// Parse the raw token list of one command-line call (the tokens after the
/// program name, in order).
///
/// A help switch anywhere yields [`Parsed::Help`] without any further
/// examination; `--version` yields [`Parsed::Version`] likewise.  Otherwise
/// the first unrecognized flag, a second positional token, or a missing
/// positional token is a [`UsageError`]; with exactly one positional token,
/// the result is the single-character validation of that token, together
/// with the recorded flags.
#[verifier::loop_isolation(false)]
pub fn get(tokens: &Vec<Vec<u8>>) -> (r: Result<Parsed, ArgsError>)
    ensures
        ({
            let s = token_views(tokens@);
            &&& has_help(s) ==> r == Ok::<Parsed, ArgsError>(Parsed::Help)
            &&& !has_help(s) && has_version(s) ==> r == Ok::<Parsed, ArgsError>(Parsed::Version)
            &&& !has_help(s) && !has_version(s) && has_unknown_flag(s) ==> (r matches Err(
                ArgsError::Usage(UsageError::UnknownFlag(i)),
            ) && unknown_flag(s[i as int]) && (forall|k: int|
                0 <= k < i as int ==> !unknown_flag(s[k])))
            &&& !has_help(s) && !has_version(s) && !has_unknown_flag(s)
                && has_duplicate_positional(s) ==> r == Err::<Parsed, ArgsError>(
                ArgsError::Usage(UsageError::DuplicatePositional),
            )
            &&& !has_help(s) && !has_version(s) && !has_unknown_flag(s) && !has_positional(s)
                ==> r == Err::<Parsed, ArgsError>(ArgsError::Usage(UsageError::MissingPositional))
            &&& forall|p: int|
                !has_help(s) && !has_version(s) && !has_unknown_flag(s)
                    && #[trigger] unique_positional_at(s, p) ==> r == parsed_with_positional(s, p)
        }),
{
    let ghost s = token_views(tokens@);
    let n = tokens.len();
    let mut help = false;
    let mut version = false;
    let mut i: usize = 0;
    while i < n
        invariant
            i <= n,
            help == exists|k: int| 0 <= k < i && help_flag(s[k]),
            version == exists|k: int| 0 <= k < i && version_flag(s[k]),
        decreases n - i,
    {
        let t = &tokens[i];
        let h = is_help_flag(t);
        let v = is_version_flag(t);
        proof {
            if help {
                let kw = choose|q: int| 0 <= q < i && help_flag(s[q]);
                assert(0 <= kw < i + 1 && help_flag(s[kw]));
            }
            if version {
                let kw = choose|q: int| 0 <= q < i && version_flag(s[q]);
                assert(0 <= kw < i + 1 && version_flag(s[kw]));
            }
            if h {
                assert(0 <= i < i + 1 && help_flag(s[i as int]));
            }
            if v {
                assert(0 <= i < i + 1 && version_flag(s[i as int]));
            }
        }
        if h {
            help = true;
        }
        if v {
            version = true;
        }
        i = i + 1;
    }
    if help {
        return Ok(Parsed::Help);
    }
    if version {
        return Ok(Parsed::Version);
    }
    let mut j: usize = 0;
    while j < n
        invariant
            j <= n,
            forall|k: int| 0 <= k < j ==> !unknown_flag(s[k]),
        decreases n - j,
    {
        let t = &tokens[j];
        if is_flag_like(t) && !is_verbose_flag(t) && !is_preview_flag(t) && !is_tui_flag(t) {
            proof {
                assert(!help_flag(s[j as int]));
                assert(!version_flag(s[j as int]));
            }
            return Err(ArgsError::Usage(UsageError::UnknownFlag(j)));
        }
        j = j + 1;
    }
    proof {
        assert forall|t: Seq<u8>| #[trigger] verbose_flag(t) implies flag_like(t) by {
            switch_flag_like(t);
        };
        assert forall|t: Seq<u8>| #[trigger] preview_flag(t) implies flag_like(t) by {
            switch_flag_like(t);
        };
        assert forall|t: Seq<u8>| #[trigger] tui_flag(t) implies flag_like(t) by {
            switch_flag_like(t);
        };
    }
    let mut verbose = false;
    let mut preview = false;
    let mut tui = false;
    let mut pos: Option<usize> = None;
    let mut k: usize = 0;
    while k < n
        invariant
            k <= n,
            verbose == exists|q: int| 0 <= q < k && verbose_flag(s[q]),
            preview == exists|q: int| 0 <= q < k && preview_flag(s[q]),
            tui == exists|q: int| 0 <= q < k && tui_flag(s[q]),
            match pos {
                None => forall|q: int| 0 <= q < k ==> !positional(s[q]),
                Some(p) => {
                    &&& (p as int) < k
                    &&& positional(s[p as int])
                    &&& forall|q: int| 0 <= q < k && q != p as int ==> !positional(s[q])
                },
            },
        decreases n - k,
    {
        let t = &tokens[k];
        proof {
            if verbose {
                let kw = choose|q: int| 0 <= q < k && verbose_flag(s[q]);
                assert(0 <= kw < k + 1 && verbose_flag(s[kw]));
            }
            if preview {
                let kw = choose|q: int| 0 <= q < k && preview_flag(s[q]);
                assert(0 <= kw < k + 1 && preview_flag(s[kw]));
            }
            if tui {
                let kw = choose|q: int| 0 <= q < k && tui_flag(s[q]);
                assert(0 <= kw < k + 1 && tui_flag(s[kw]));
            }
        }
        proof {
            assert(t@ == s[k as int]);
        }
        let fv = is_verbose_flag(t);
        let fp = is_preview_flag(t);
        let ft = is_tui_flag(t);
        if is_flag_like(t) {
            if fv {
                verbose = true;
                proof {
                    assert(0 <= k < k + 1 && verbose_flag(s[k as int]));
                }
            }
            if fp {
                preview = true;
                proof {
                    assert(0 <= k < k + 1 && preview_flag(s[k as int]));
                }
            }
            if ft {
                tui = true;
                proof {
                    assert(0 <= k < k + 1 && tui_flag(s[k as int]));
                }
            }
            if !fv && !fp && !ft {
                // Unreachable: an unrecognized flag was ruled out above, and
                // help and version switches returned early.
                proof {
                    assert(!help_flag(s[k as int]));
                    assert(!version_flag(s[k as int]));
                    assert(unknown_flag(s[k as int]));
                    assert(false);
                }
            }
        } else {
            match pos {
                None => {
                    pos = Some(k);
                },
                Some(p0) => {
                    proof {
                        assert((p0 as int) < (k as int) && (k as int) < s.len()
                            && positional(s[p0 as int]) && positional(s[k as int]));
                        assert(has_duplicate_positional(s));
                    }
                    return Err(ArgsError::Usage(UsageError::DuplicatePositional));
                },
            }
        }
        k = k + 1;
    }
    match pos {
        None => Err(ArgsError::Usage(UsageError::MissingPositional)),
        Some(p) => {
            proof {
                assert(unique_positional_at(s, p as int));
            }
            match OneChar::parse(&tokens[p]) {
                Ok(c) => Ok(Parsed::Invocation(Args { verbose, preview, tui, char: c })),
                Err(e) => Err(ArgsError::Character(p, e)),
            }
        },
    }
}

/// Flag parsing is order-independent: two token lists made of the same
/// tokens, each with its single positional token, agree on every recorded
/// flag and on the positional token itself — so by the contract of [`get`]
/// they parse to the same invocation.
pub proof fn lemma_flag_order_independent(s1: Seq<Seq<u8>>, s2: Seq<Seq<u8>>, p1: int, p2: int)
    requires
        forall|t: Seq<u8>| #[trigger] s1.contains(t) <==> #[trigger] s2.contains(t),
        unique_positional_at(s1, p1),
        unique_positional_at(s2, p2),
    ensures
        has_help(s1) == has_help(s2),
        has_version(s1) == has_version(s2),
        has_unknown_flag(s1) == has_unknown_flag(s2),
        has_verbose(s1) == has_verbose(s2),
        has_preview(s1) == has_preview(s2),
        has_tui(s1) == has_tui(s2),
        s1[p1] == s2[p2],
{
    assert forall|i: int| 0 <= i < s1.len() implies s2.contains(s1[i]) by {
        assert(s1.contains(s1[i]));
    };
    assert forall|i: int| 0 <= i < s2.len() implies s1.contains(s2[i]) by {
        assert(s2.contains(s2[i]));
    };
    assert(s2.contains(s1[p1]));
    let w = choose|i: int| 0 <= i < s2.len() && s2[i] == s1[p1];
    assert(s1[p1] == s2[p2]) by {
        assert(positional(s2[w]));
    };
}

/// A value standing at two distinct positions of a sequence occurs at least
/// twice in its multiset.
proof fn lemma_count_at_least_two<A>(s: Seq<A>, i: int, j: int)
    requires
        0 <= i < j < s.len(),
        s[i] == s[j],
    ensures
        s.to_multiset().count(s[i]) >= 2,
{
    broadcast use vstd::seq_lib::group_to_multiset_ensures;
    broadcast use vstd::multiset::group_multiset_axioms;

    let s0 = s.subrange(0, j);
    let s1 = s.subrange(j, s.len() as int);
    assert(s =~= s0 + s1);
    vstd::seq_lib::lemma_multiset_commutative(s0, s1);
    assert(s0[i] == s[i]);
    assert(s0.contains(s[i]));
    assert(s1[0] == s[j]);
    assert(s1.contains(s[i]));
}

/// In a token list whose only positional token stands at `i`, that token
/// occurs exactly once.
proof fn lemma_unique_positional_count(s: Seq<Seq<u8>>, i: int)
    requires
        unique_positional_at(s, i),
    ensures
        s.to_multiset().count(s[i]) == 1,
{
    broadcast use vstd::seq_lib::group_to_multiset_ensures;
    broadcast use vstd::multiset::group_multiset_axioms;

    let a = s[i];
    let r = s.remove(i);
    s.remove_ensures(i);
    assert(!r.contains(a)) by {
        if r.contains(a) {
            let w = choose|k: int| 0 <= k < r.len() && r[k] == a;
            if w < i {
                assert(s[w] == a && positional(s[w]));
            } else {
                assert(s[w + 1] == a && positional(s[w + 1]));
            }
        }
    };
    assert(s.contains(a));
    assert(r.to_multiset() == s.to_multiset().remove(a));
    assert(r.to_multiset().count(a) == 0);
}

/// A rearrangement of a token list with a single positional token still has a
/// single positional token, and it is the same token.
pub proof fn lemma_order_independent_permutation(s1: Seq<Seq<u8>>, s2: Seq<Seq<u8>>, p1: int)
    requires
        s1.to_multiset() == s2.to_multiset(),
        unique_positional_at(s1, p1),
    ensures
        has_help(s1) == has_help(s2),
        has_version(s1) == has_version(s2),
        has_unknown_flag(s1) == has_unknown_flag(s2),
        has_verbose(s1) == has_verbose(s2),
        has_preview(s1) == has_preview(s2),
        has_tui(s1) == has_tui(s2),
        exists|p2: int| #[trigger] unique_positional_at(s2, p2) && s1[p1] == s2[p2],
{
    broadcast use vstd::seq_lib::group_to_multiset_ensures;

    let a = s1[p1];
    assert(s1.contains(a));
    assert(s1.to_multiset().count(a) > 0);
    assert(s2.to_multiset().count(a) > 0);
    assert(s2.contains(a));
    let p2 = choose|i: int| 0 <= i < s2.len() && s2[i] == a;
    assert forall|q: int| 0 <= q < s2.len() && q != p2 implies !positional(s2[q]) by {
        if positional(s2[q]) {
            assert(s2.contains(s2[q]));
            assert(s2.to_multiset().count(s2[q]) > 0);
            assert(s1.to_multiset().count(s2[q]) > 0);
            assert(s1.contains(s2[q]));
            let w = choose|i: int| 0 <= i < s1.len() && s1[i] == s2[q];
            assert(w == p1);
            assert(s2[q] == a);
            if q < p2 {
                lemma_count_at_least_two(s2, q, p2);
            } else {
                lemma_count_at_least_two(s2, p2, q);
            }
            lemma_unique_positional_count(s1, p1);
        }
    };
    assert(unique_positional_at(s2, p2));
    assert forall|t: Seq<u8>| #[trigger] s1.contains(t) <==> #[trigger] s2.contains(t) by {
        if s1.contains(t) {
            assert(s1.to_multiset().count(t) > 0);
        }
        if s2.contains(t) {
            assert(s2.to_multiset().count(t) > 0);
        }
    };
    lemma_flag_order_independent(s1, s2, p1, p2);
}

/// Setting `--tui` together with `--preview` yields an invocation in which
/// both flags are recorded as set: the parser preserves the raw flags and
/// leaves their precedence to the downstream consumer.
pub proof fn lemma_tui_preserves_preview(s: Seq<Seq<u8>>, i: int, j: int)
    requires
        0 <= i < s.len(),
        tui_flag(s[i]),
        0 <= j < s.len(),
        preview_flag(s[j]),
    ensures
        has_tui(s),
        has_preview(s),
{
}

} // verus!
