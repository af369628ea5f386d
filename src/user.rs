use vstd::prelude::*;

use crate::text::owned_string;

verus! {

/// What `str::to_lowercase` makes of a string.
pub uninterp spec fn lower_of(s: Seq<char>) -> Seq<char>;

/// Relies on `str::to_lowercase`: its result depends on the characters alone.
#[verifier::external_body]
fn lowercase(s: &str) -> (r: String)
    ensures
        r@ == lower_of(s@),
{
    s.to_lowercase()
}

/// The character of a decimal digit.
pub open spec fn digit_char(d: nat) -> char {
    if d == 0 {
        '0'
    } else if d == 1 {
        '1'
    } else if d == 2 {
        '2'
    } else if d == 3 {
        '3'
    } else if d == 4 {
        '4'
    } else if d == 5 {
        '5'
    } else if d == 6 {
        '6'
    } else if d == 7 {
        '7'
    } else if d == 8 {
        '8'
    } else {
        '9'
    }
}

/// The decimal notation of `n`, without leading zeros.
pub open spec fn decimal(n: nat) -> Seq<char>
    decreases n,
{
    if n < 10 {
        seq![digit_char(n)]
    } else {
        decimal(n / 10).push(digit_char(n % 10))
    }
}

/// The wallet identifier of a Telegram user: `tg-` and the lowercased username.
pub open spec fn telegram_wallet_identifier_of(username: Seq<char>) -> Seq<char> {
    seq!['t', 'g', '-'] + lower_of(username)
}

/// What a character becomes in a MarkdownV2 message: `.` and `_` are escaped with a backslash.
pub open spec fn escape_char(c: char) -> Seq<char> {
    if c == '.' || c == '_' {
        seq!['\\', c]
    } else {
        seq![c]
    }
}

/// A message with each of its `.` and `_` escaped.
pub open spec fn escaped(s: Seq<char>) -> Seq<char>
    decreases s.len(),
{
    if s.len() == 0 {
        Seq::empty()
    } else {
        escaped(s.drop_last()) + escape_char(s.last())
    }
}

fn digit_str(d: u64) -> (r: &'static str)
    requires
        d < 10,
    ensures
        r@ == seq![digit_char(d as nat)],
{
    if d == 0 {
        proof { reveal_strlit("0"); }
        "0"
    } else if d == 1 {
        proof { reveal_strlit("1"); }
        "1"
    } else if d == 2 {
        proof { reveal_strlit("2"); }
        "2"
    } else if d == 3 {
        proof { reveal_strlit("3"); }
        "3"
    } else if d == 4 {
        proof { reveal_strlit("4"); }
        "4"
    } else if d == 5 {
        proof { reveal_strlit("5"); }
        "5"
    } else if d == 6 {
        proof { reveal_strlit("6"); }
        "6"
    } else if d == 7 {
        proof { reveal_strlit("7"); }
        "7"
    } else if d == 8 {
        proof { reveal_strlit("8"); }
        "8"
    } else {
        proof { reveal_strlit("9"); }
        "9"
    }
}

fn append_decimal(n: u64, out: &mut String)
    ensures
        final(out)@ == old(out)@ + decimal(n as nat),
    decreases n,
{
    if n >= 10 {
        append_decimal(n / 10, out);
    }
    out.append(digit_str(n % 10));
    assert(decimal(n as nat) =~= if n < 10 {
        seq![digit_char(n as nat)]
    } else {
        decimal((n / 10) as nat).push(digit_char((n % 10) as nat))
    });
}

/// The decimal notation of a user id.
pub fn decimal_string(n: u64) -> (r: String)
    ensures
        r@ == decimal(n as nat),
{
    let mut s = String::new();
    append_decimal(n, &mut s);
    assert(Seq::<char>::empty() + decimal(n as nat) =~= decimal(n as nat));
    s
}

/// The wallet identifier of the Telegram user `username` (case does not matter).
pub fn telegram_wallet_identifier(username: &str) -> (r: String)
    ensures
        r@ == telegram_wallet_identifier_of(username@),
{
    let lower = lowercase(username);
    let mut r = owned_string("tg-");
    proof { reveal_strlit("tg-"); }
    r.append(lower.as_str());
    r
}

/// Escapes `.` and `_` for a MarkdownV2 message.
pub fn escape_markdown(message: &str) -> (r: String)
    ensures
        r@ == escaped(message@),
{
    let n = message.unicode_len();
    let mut out = String::new();
    let mut i: usize = 0;
    while i < n
        invariant
            n == message@.len(),
            i <= n,
            out@ == escaped(message@.take(i as int)),
        decreases n - i,
    {
        let c = message.get_char(i);
        assert(message@.take(i + 1).drop_last() =~= message@.take(i as int));
        assert(message@.take(i + 1).last() == c);
        assert(escaped(message@.take(i + 1)) == escaped(message@.take(i as int)) + escape_char(c));
        if c == '.' {
            proof { reveal_strlit("\\."); }
            out.append("\\.");
        } else if c == '_' {
            proof { reveal_strlit("\\_"); }
            out.append("\\_");
        } else {
            let one = message.substring_char(i, i + 1);
            assert(one@ =~= seq![c]);
            out.append(one);
        }
        i = i + 1;
    }
    assert(message@.take(i as int) =~= message@);
    out
}

/// A chat user: the id that messages are sent to, and the identifier of their wallet.
pub struct TipUser {
    identifier: String,
    wallet_identifier: String,
}

impl TipUser {
    pub closed spec fn identifier_view(&self) -> Seq<char> {
        self.identifier@
    }

    pub closed spec fn wallet_identifier_view(&self) -> Seq<char> {
        self.wallet_identifier@
    }

    pub fn new(identifier: String, wallet_identifier: String) -> (r: Self)
        ensures
            r.identifier_view() == identifier@,
            r.wallet_identifier_view() == wallet_identifier@,
    {
        TipUser { identifier, wallet_identifier }
    }

    /// A Telegram user: messages go to their numeric id, and their wallet is named
    /// after their lowercased username.
    pub fn from_telegram(user_id: u64, username: &str) -> (r: Self)
        ensures
            r.identifier_view() == decimal(user_id as nat),
            r.wallet_identifier_view() == telegram_wallet_identifier_of(username@),
    {
        TipUser {
            identifier: decimal_string(user_id),
            wallet_identifier: telegram_wallet_identifier(username),
        }
    }

    /// A Discord user: both the message target and the wallet are named by the numeric id.
    pub fn from_discord(user_id: u64) -> (r: Self)
        ensures
            r.identifier_view() == decimal(user_id as nat),
            r.wallet_identifier_view() == decimal(user_id as nat),
    {
        TipUser { identifier: decimal_string(user_id), wallet_identifier: decimal_string(user_id) }
    }

    pub fn wallet_identifier(&self) -> (r: &str)
        ensures
            r@ == self.wallet_identifier_view(),
    {
        self.wallet_identifier.as_str()
    }

    pub fn identifier(&self) -> (r: String)
        ensures
            r@ == self.identifier_view(),
    {
        self.identifier.clone()
    }
}

} // verus!
