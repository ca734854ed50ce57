//! Casemapping rules for nickname and channel-name comparison.
//!
//! IRC compares names case-insensitively, where "case" depends on the
//! advertised `CASEMAPPING`: `ascii` folds only `A`-`Z`; `rfc1459` also
//! treats `[]\~` as the upper-case forms of `{}|^`; `rfc1459-strict`
//! does the same except for `~`/`^`.

use vstd::prelude::*;

verus! {

/// Casemapping in effect for name comparisons.
#[derive(Clone, Copy, Debug, PartialEq, Eq, Structural)]
pub enum Casemap {
    /// Only the letters `A`-`Z` fold to `a`-`z`.
    Ascii,
    /// ASCII letters plus `[`→`{`, `]`→`}`, `\`→`|`, `~`→`^`.
    Rfc1459,
    /// ASCII letters plus `[`→`{`, `]`→`}`, `\`→`|`.
    Rfc1459Strict,
}

/// The folded (lower-case) form of one byte under `cm`.
pub open spec fn fold_byte(cm: Casemap, b: u8) -> u8 {
    if 0x41 <= b <= 0x5a {
        (b + 0x20) as u8
    } else if cm is Ascii {
        b
    } else if b == 0x5b {
        0x7b
    } else if b == 0x5d {
        0x7d
    } else if b == 0x5c {
        0x7c
    } else if b == 0x7e && cm is Rfc1459 {
        0x5e
    } else {
        b
    }
}

/// The folded form of a whole name: every byte folded on its own.
pub open spec fn fold_seq(cm: Casemap, s: Seq<u8>) -> Seq<u8> {
    s.map_values(|b: u8| fold_byte(cm, b))
}

impl Casemap {
    /// Fold a single byte.
    pub fn fold_byte(&self, b: u8) -> (r: u8)
        ensures
            r == fold_byte(*self, b),
    {
        if 0x41 <= b && b <= 0x5a {
            b + 0x20
        } else {
            match self {
                Casemap::Ascii => b,
                Casemap::Rfc1459 => {
                    if b == 0x5b {
                        0x7b
                    } else if b == 0x5d {
                        0x7d
                    } else if b == 0x5c {
                        0x7c
                    } else if b == 0x7e {
                        0x5e
                    } else {
                        b
                    }
                },
                Casemap::Rfc1459Strict => {
                    if b == 0x5b {
                        0x7b
                    } else if b == 0x5d {
                        0x7d
                    } else if b == 0x5c {
                        0x7c
                    } else {
                        b
                    }
                },
            }
        }
    }

    /// Fold a name to its canonical lower-case form.
    pub fn fold(&self, name: &[u8]) -> (r: Vec<u8>)
        ensures
            r@ == fold_seq(*self, name@),
    {
        let mut out: Vec<u8> = Vec::new();
        let n = name.len();
        let mut i: usize = 0;
        while i < n
            invariant
                n == name@.len(),
                i <= n,
                out@ == fold_seq(*self, name@.subrange(0, i as int)),
            decreases n - i,
        {
            let b = self.fold_byte(name[i]);
            out.push(b);
            i = i + 1;
            assert(name@.subrange(0, i as int) == name@.subrange(0, (i - 1) as int).push(
                name@[i - 1],
            ));
        }
        assert(name@.subrange(0, n as int) == name@);
        out
    }
}

/// Folding a byte twice gives the same result as folding it once.
proof fn lemma_fold_byte_idempotent(cm: Casemap, b: u8)
    ensures
        fold_byte(cm, fold_byte(cm, b)) == fold_byte(cm, b),
{
}

/// Folding is idempotent: a folded name is its own folded form.
pub proof fn law_fold_idempotent(cm: Casemap, s: Seq<u8>)
    ensures
        fold_seq(cm, fold_seq(cm, s)) == fold_seq(cm, s),
{
    assert forall|i: int| 0 <= i < s.len() implies fold_seq(cm, fold_seq(cm, s))[i] == fold_seq(
        cm,
        s,
    )[i] by {
        lemma_fold_byte_idempotent(cm, s[i]);
    }
    assert(fold_seq(cm, fold_seq(cm, s)) =~= fold_seq(cm, s));
}

/// Folding never changes the length of a name.
pub proof fn law_fold_preserves_length(cm: Casemap, s: Seq<u8>)
    ensures
        fold_seq(cm, s).len() == s.len(),
{
}

/// The casemapping rules, byte by byte: under every casemap each ASCII
/// upper-case letter folds to its lower-case letter and each lower-case
/// letter and digit stays as it is; `ascii` changes nothing else;
/// `rfc1459` also folds `[`, `]`, `\` and `~` to `{`, `}`, `|` and `^`;
/// `rfc1459-strict` folds the first three of these and leaves `~` alone.
pub proof fn law_casemap_rules(cm: Casemap, b: u8)
    ensures
        0x41 <= b <= 0x5a ==> fold_byte(cm, b) == b + 0x20,
        0x61 <= b <= 0x7a ==> fold_byte(cm, b) == b,
        0x30 <= b <= 0x39 ==> fold_byte(cm, b) == b,
        cm is Ascii && !(0x41 <= b <= 0x5a) ==> fold_byte(cm, b) == b,
        !(cm is Ascii) ==> fold_byte(cm, 0x5b) == 0x7b && fold_byte(cm, 0x5d) == 0x7d
            && fold_byte(cm, 0x5c) == 0x7c,
        cm is Rfc1459 ==> fold_byte(cm, 0x7e) == 0x5e,
        cm is Rfc1459Strict ==> fold_byte(cm, 0x7e) == 0x7e,
        !(0x41 <= b <= 0x5a) && b != 0x5b && b != 0x5c && b != 0x5d && b != 0x7e ==> fold_byte(
            cm,
            b,
        ) == b,
{
}

/// A name folds byte by byte: the folded name has the same length and
/// each of its bytes is the fold of the byte at the same place.
pub proof fn law_fold_is_bytewise(cm: Casemap, s: Seq<u8>)
    ensures
        fold_seq(cm, s).len() == s.len(),
        forall|i: int| 0 <= i < s.len() ==> #[trigger] fold_seq(cm, s)[i] == fold_byte(cm, s[i]),
{
}

/// Names that differ only in the case of ASCII letters fold to the same
/// name, under every casemap.
pub proof fn law_ascii_case_is_ignored(cm: Casemap, s: Seq<u8>, t: Seq<u8>)
    requires
        s.len() == t.len(),
        forall|i: int|
            0 <= i < s.len() ==> #[trigger] s[i] == t[i] || (0x41 <= s[i] <= 0x5a && t[i] == s[i]
                + 0x20) || (0x41 <= t[i] <= 0x5a && s[i] == t[i] + 0x20),
    ensures
        fold_seq(cm, s) == fold_seq(cm, t),
{
    assert forall|i: int| 0 <= i < s.len() implies fold_seq(cm, s)[i] == fold_seq(cm, t)[i] by {
        assert(s[i] == t[i] || (0x41 <= s[i] <= 0x5a && t[i] == s[i] + 0x20) || (0x41 <= t[i]
            <= 0x5a && s[i] == t[i] + 0x20));
    }
    assert(fold_seq(cm, s) =~= fold_seq(cm, t));
}

} // verus!
