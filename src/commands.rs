use vstd::prelude::*;

verus! {

/// The commands a chat user can give.
#[derive(Debug, Clone, PartialEq, Eq)]
pub enum Command {
    Help,
    NetworkId,
    Create { password: String },
    Status,
    Open { password: String },
    Close,
    Destroy,
    Export { password: String },
    ChangePassword { old_password: String, new_password: String },
    Restore { mnemonic: String, password: String },
    Send {
        telegram_username: String,
        amount: String,
        password: String,
        message: Option<String>,
    },
    Withdraw { address: String, amount: String, password: String },
    Claim,
}

/// The fewest bytes a new wallet password may have.
pub const MIN_PASSWORD_BYTES: usize = 8;

/// Whether `password` is long enough to protect a new wallet: its length in bytes.
pub fn password_long_enough(password: &str) -> (r: bool)
    ensures
        r == (password.len() >= MIN_PASSWORD_BYTES),
{
    password.len() >= MIN_PASSWORD_BYTES
}

/// Whether `c` has the Unicode White_Space property.
pub open spec fn is_white_space(c: char) -> bool {
    ('\u{9}' <= c && c <= '\u{d}') || c == ' ' || c == '\u{85}' || c == '\u{a0}' || c
        == '\u{1680}' || ('\u{2000}' <= c && c <= '\u{200a}') || c == '\u{2028}' || c == '\u{2029}'
        || c == '\u{202f}' || c == '\u{205f}' || c == '\u{3000}'
}

/// The number of words of `s`: maximal runs of characters without white space.
pub open spec fn word_count(s: Seq<char>) -> nat
    decreases s.len(),
{
    if s.len() == 0 {
        0
    } else {
        word_count(s.drop_last()) + if !is_white_space(s.last()) && (s.len() == 1
            || is_white_space(s[s.len() - 2])) {
            1nat
        } else {
            0nat
        }
    }
}

pub fn white_space(c: char) -> (r: bool)
    ensures
        r == is_white_space(c),
{
    ('\u{9}' <= c && c <= '\u{d}') || c == ' ' || c == '\u{85}' || c == '\u{a0}' || c
        == '\u{1680}' || ('\u{2000}' <= c && c <= '\u{200a}') || c == '\u{2028}' || c == '\u{2029}'
        || c == '\u{202f}' || c == '\u{205f}' || c == '\u{3000}'
}

/// How many whitespace-separated words `s` holds.
pub fn count_words(s: &str) -> (r: usize)
    ensures
        r == word_count(s@),
{
    let n = s.unicode_len();
    let mut count: usize = 0;
    let mut previous_blank = true;
    let mut i: usize = 0;
    while i < n
        invariant
            n == s@.len(),
            i <= n,
            count == word_count(s@.take(i as int)),
            count <= i,
            previous_blank == (i == 0 || is_white_space(s@[i - 1])),
        decreases n - i,
    {
        let c = s.get_char(i);
        let ghost next = s@.take(i + 1);
        assert(next.drop_last() =~= s@.take(i as int));
        assert(next.last() == c);
        assert(i > 0 ==> next[next.len() - 2] == s@[i - 1]);
        let blank = white_space(c);
        if !blank && previous_blank {
            count = count + 1;
        }
        previous_blank = blank;
        i = i + 1;
    }
    assert(s@.take(i as int) =~= s@);
    count
}

/// Whether a recovery phrase has one of the two accepted lengths, 12 or 24 words.
pub fn recovery_phrase_length_ok(phrase: &str) -> (r: bool)
    ensures
        r == (word_count(phrase@) == 12 || word_count(phrase@) == 24),
{
    let n = count_words(phrase);
    n == 12 || n == 24
}

} // verus!
