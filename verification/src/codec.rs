//! The session file's wire form.
//!
//! A session is serialized to plain text: numbers as decimal digits
//! closed by `';'`, strings as a length followed by that many raw
//! characters, options and enums as one tag character followed by the
//! payload, lists as a count followed by the encoded items. The format
//! is deterministic — every value has exactly one encoding — and every
//! encoder below comes with the proof that the decoder maps its output
//! back to the value it came from, wherever the encoding stands inside a
//! larger buffer.

use vstd::prelude::*;
use crate::strutil::push_u64_chars;
use crate::strutil::from_chars;
use crate::strutil::spec_digit_char;
use crate::strutil::spec_digit_val;
use crate::strutil::spec_is_digit;
use crate::strutil::spec_u64_string;
use crate::strutil::lemma_digit_char_val;
use crate::strutil::to_chars;
use crate::types::Message;
use crate::types::MessageView;
use crate::types::Role;
use crate::request::ChatRequest;
use crate::request::ChatRequestView;
use crate::session::Session;
use crate::session::SessionConfig;
use crate::session::SessionConfigView;
use crate::session::SessionView;
use crate::transaction::ChatChoice;
use crate::transaction::ChatChoiceView;
use crate::transaction::StreamChoice;
use crate::transaction::StreamChoiceView;
use crate::transaction::StreamState;
use crate::transaction::ChatResponse;
use crate::transaction::ChatResponseView;
use crate::transaction::ChatTransaction;
use crate::transaction::ChatTransactionView;
use crate::transaction::StreamedResponse;
use crate::transaction::StreamedResponseView;
use crate::types::Command;
use crate::types::CommandView;
use crate::types::CommandParameters;
use crate::types::CommandParametersView;
use crate::types::CommandProperty;
use crate::types::CommandPropertyView;
use crate::types::Commands;
use crate::types::CommandsView;
use crate::types::Model;
use crate::types::ModelView;

verus! {

/// A number's encoding: its decimal digits, closed by `';'`.
pub open spec fn spec_enc_nat(n: nat) -> Seq<char> {
    spec_u64_string(n).push(';')
}

/// Decimal digits read left to right into `acc` until the closing `';'`.
pub open spec fn spec_dec_nat_rec(s: Seq<char>, pos: int, acc: nat) -> Option<(nat, int)>
    decreases s.len() - pos,
{
    if pos < 0 || pos >= s.len() {
        Option::None
    } else if s[pos] == ';' {
        Option::Some((acc, pos + 1))
    } else if spec_is_digit(s[pos]) {
        spec_dec_nat_rec(s, pos + 1, acc * 10 + spec_digit_val(s[pos]))
    } else {
        Option::None
    }
}

/// A number decoded at `pos`: its value and the position after the `';'`.
pub open spec fn spec_dec_nat(s: Seq<char>, pos: int) -> Option<(nat, int)> {
    spec_dec_nat_rec(s, pos, 0)
}

/// Ten to the `k`.
pub open spec fn spec_pow10(k: nat) -> nat
    decreases k,
{
    if k == 0 {
        1
    } else {
        10 * spec_pow10((k - 1) as nat)
    }
}

/// No digit character is the closing `';'`.
proof fn lemma_digit_not_semi(c: char)
    requires
        spec_is_digit(c),
    ensures
        c != ';',
{
    let d = choose|d: nat| d < 10 && c == spec_digit_char(d);
}

/// Reading the digits of `n` starting with accumulator `acc` leaves the
/// scanner after them, with `acc` shifted past `n`'s digits and `n`
/// added in.
proof fn lemma_dec_digits(s: Seq<char>, pos: int, acc: nat, n: nat)
    requires
        0 <= pos,
        pos + spec_u64_string(n).len() <= s.len(),
        s.subrange(pos, pos + spec_u64_string(n).len() as int) == spec_u64_string(n),
    ensures
        spec_dec_nat_rec(s, pos, acc) == spec_dec_nat_rec(
            s,
            pos + spec_u64_string(n).len() as int,
            acc * spec_pow10(spec_u64_string(n).len()) + n,
        ),
    decreases n,
{
    let digits = spec_u64_string(n);
    let ln = digits.len() as int;
    if n < 10 {
        assert(s[pos] == digits[0]);
        lemma_digit_char_val(n);
        lemma_digit_not_semi(spec_digit_char(n));
        assert(spec_dec_nat_rec(s, pos, acc) == spec_dec_nat_rec(s, pos + 1, acc * 10 + n));
        assert(spec_pow10(0) == 1);
        assert(spec_pow10(1) == 10);
    } else {
        let hi = spec_u64_string(n / 10);
        let lh = hi.len() as int;
        assert(digits == hi.push(spec_digit_char(n % 10)));
        assert(s.subrange(pos, pos + lh) =~= hi) by {
            assert forall|i: int| 0 <= i < lh implies s.subrange(pos, pos + lh)[i] == hi[i] by {
                assert(s[pos + i] == digits[i]);
                assert(digits[i] == hi[i]);
            }
        }
        lemma_dec_digits(s, pos, acc, n / 10);
        let mid = acc * spec_pow10(hi.len()) + n / 10;
        assert(s[pos + lh] == digits[lh]);
        assert(digits[lh] == spec_digit_char(n % 10));
        lemma_digit_char_val(n % 10);
        lemma_digit_not_semi(spec_digit_char(n % 10));
        assert(spec_dec_nat_rec(s, pos + lh, mid) == spec_dec_nat_rec(
            s,
            pos + lh + 1,
            mid * 10 + n % 10,
        ));
        assert(mid * 10 + n % 10 == acc * spec_pow10(digits.len()) + n) by (nonlinear_arith)
            requires
                mid == acc * spec_pow10(hi.len()) + n / 10,
                spec_pow10(digits.len()) == 10 * spec_pow10(hi.len()),
                n == (n / 10) * 10 + n % 10;
        assert(spec_pow10(digits.len()) == 10 * spec_pow10(hi.len()));
        assert(n == (n / 10) * 10 + n % 10);
    }
}

/// Wherever a buffer carries `spec_enc_nat(n)`, decoding there yields
/// `n` and stops right after it.
pub proof fn lemma_dec_enc_nat(s: Seq<char>, pos: int, n: nat)
    requires
        0 <= pos,
        pos + spec_enc_nat(n).len() <= s.len(),
        s.subrange(pos, pos + spec_enc_nat(n).len() as int) == spec_enc_nat(n),
    ensures
        spec_dec_nat(s, pos) == Option::Some((n, pos + spec_enc_nat(n).len())),
{
    let digits = spec_u64_string(n);
    let ld = digits.len() as int;
    assert(s.subrange(pos, pos + ld) =~= digits) by {
        assert forall|i: int| 0 <= i < ld implies s.subrange(pos, pos + ld)[i] == digits[i] by {
            assert(s[pos + i] == spec_enc_nat(n)[i]);
        }
    }
    lemma_dec_digits(s, pos, 0, n);
    assert(0 * spec_pow10(digits.len()) + n == n) by (nonlinear_arith);
    assert(s[pos + ld] == spec_enc_nat(n)[ld]);
    assert(spec_enc_nat(n)[ld] == ';');
}

/// Append `spec_enc_nat(n)` to the output buffer.
pub fn write_nat(out: &mut Vec<char>, n: u64)
    ensures
        final(out)@ == old(out)@ + spec_enc_nat(n as nat),
{
    push_u64_chars(out, n);
    out.push(';');
    assert(out@ =~= old(out)@ + spec_enc_nat(n as nat));
}

/// Decode a number at `pos`; `None` when the text there is not a
/// number closed by `';'`, or the value does not fit in `u64`.
pub fn read_u64(s: &Vec<char>, pos: usize) -> (r: Option<(u64, usize)>)
    ensures
        r matches Some(vp) ==> spec_dec_nat(s@, pos as int) == Option::Some(
            (vp.0 as nat, vp.1 as int),
        ),
        r is None ==> (spec_dec_nat(s@, pos as int) is None || (spec_dec_nat(
            s@,
            pos as int,
        ) matches Some(np) && np.0 > u64::MAX)),
{
    let n = s.len();
    if pos >= n {
        return Option::None;
    }
    let mut acc: u64 = 0;
    let mut i: usize = pos;
    loop
        invariant
            pos <= i <= n,
            n == s@.len(),
            spec_dec_nat(s@, pos as int) == spec_dec_nat_rec(s@, i as int, acc as nat),
        decreases n - i,
    {
        if i >= n {
            return Option::None;
        }
        let c = s[i];
        if c == ';' {
            return Option::Some((acc, i + 1));
        }
        let d: u64 = match c {
            '0' => 0,
            '1' => 1,
            '2' => 2,
            '3' => 3,
            '4' => 4,
            '5' => 5,
            '6' => 6,
            '7' => 7,
            '8' => 8,
            '9' => 9,
            _ => 10,
        };
        if d == 10 {
            proof {
                if spec_is_digit(c) {
                    let w = choose|w: nat| w < 10 && c == spec_digit_char(w);
                }
            }
            return Option::None;
        }
        proof {
            lemma_digit_char_val(d as nat);
            assert(c == spec_digit_char(d as nat));
            assert(spec_digit_val(c) == d as nat);
        }
        if acc > (u64::MAX - d) / 10 {
            proof {
                lemma_acc_overflow(acc as nat, d as nat);
                lemma_dec_grows(s@, i as int + 1, acc as nat * 10 + d as nat);
            }
            return Option::None;
        }
        proof {
            assert(acc as nat * 10 + d as nat <= u64::MAX) by (nonlinear_arith)
                requires
                    acc as nat <= (u64::MAX - d as nat) / 10,
                    (d as nat) < 10;
        }
        acc = acc * 10 + d;
        i = i + 1;
    }
}

/// Once the accumulator exceeds `u64`, every continuation of the scan
/// that still succeeds yields a value at least as large.
proof fn lemma_dec_grows(s: Seq<char>, pos: int, acc: nat)
    ensures
        spec_dec_nat_rec(s, pos, acc) matches Some(np) ==> np.0 >= acc,
    decreases s.len() - pos,
{
    if pos < 0 || pos >= s.len() {
    } else if s[pos] == ';' {
    } else if spec_is_digit(s[pos]) {
        lemma_dec_grows(s, pos + 1, acc * 10 + spec_digit_val(s[pos]));
        assert(acc * 10 + spec_digit_val(s[pos]) >= acc) by (nonlinear_arith);
    }
}

/// Successful decoding moves forward and stays inside the buffer.
proof fn lemma_dec_nat_pos(s: Seq<char>, pos: int, acc: nat)
    ensures
        spec_dec_nat_rec(s, pos, acc) matches Some(np) ==> pos < np.1 <= s.len(),
    decreases s.len() - pos,
{
    if pos < 0 || pos >= s.len() {
    } else if s[pos] == ';' {
    } else if spec_is_digit(s[pos]) {
        lemma_dec_nat_pos(s, pos + 1, acc * 10 + spec_digit_val(s[pos]));
    }
}

/// Where a buffer's segment equals `whole`, any piece of that segment
/// equals the matching piece of `whole`.
proof fn lemma_segment(s: Seq<char>, pos: int, whole: Seq<char>, lo: int, hi: int)
    requires
        0 <= pos,
        0 <= lo <= hi <= whole.len(),
        pos + whole.len() <= s.len(),
        s.subrange(pos, pos + whole.len() as int) == whole,
    ensures
        s.subrange(pos + lo, pos + hi) == whole.subrange(lo, hi),
{
    assert(s.subrange(pos + lo, pos + hi) =~= whole.subrange(lo, hi)) by {
        assert forall|i: int|
            0 <= i < hi - lo implies s.subrange(pos + lo, pos + hi)[i] == whole.subrange(
            lo,
            hi,
        )[i] by {
            assert(s.subrange(pos, pos + whole.len() as int)[lo + i] == whole[lo + i]);
        }
    }
}

/// A string's encoding: its length, then its characters raw.
pub open spec fn spec_enc_str(t: Seq<char>) -> Seq<char> {
    spec_enc_nat(t.len()) + t
}

/// A string decoded at `pos`: its characters and the position after
/// them.
pub open spec fn spec_dec_str(s: Seq<char>, pos: int) -> Option<(Seq<char>, int)> {
    match spec_dec_nat(s, pos) {
        Option::Some(np) => if np.1 + np.0 <= s.len() {
            Option::Some((s.subrange(np.1, np.1 + np.0 as int), np.1 + np.0 as int))
        } else {
            Option::None
        },
        Option::None => Option::None,
    }
}

pub proof fn lemma_dec_enc_str(s: Seq<char>, pos: int, t: Seq<char>)
    requires
        0 <= pos,
        pos + spec_enc_str(t).len() <= s.len(),
        s.subrange(pos, pos + spec_enc_str(t).len() as int) == spec_enc_str(t),
    ensures
        spec_dec_str(s, pos) == Option::Some((t, pos + spec_enc_str(t).len())),
{
    let e = spec_enc_nat(t.len());
    let le = e.len() as int;
    let whole = spec_enc_str(t);
    lemma_segment(s, pos, whole, 0, le);
    assert(whole.subrange(0, le) =~= e);
    lemma_dec_enc_nat(s, pos, t.len());
    lemma_segment(s, pos, whole, le, whole.len() as int);
    assert(whole.subrange(le, whole.len() as int) =~= t);
}

/// Append `spec_enc_str` of the string's characters.
pub fn write_str(out: &mut Vec<char>, t: &str)
    ensures
        final(out)@ == old(out)@ + spec_enc_str(t@),
{
    let mut chars = to_chars(t);
    let len64 = chars.len() as u64;
    write_nat(out, len64);
    out.append(&mut chars);
    assert(out@ =~= old(out)@ + spec_enc_str(t@));
}

/// Decode a string at `pos`.
pub fn read_str(s: &Vec<char>, pos: usize) -> (r: Option<(String, usize)>)
    ensures
        r matches Some(vp) ==> (spec_dec_str(s@, pos as int) matches Some(w) && w.0 == vp.0@
            && w.1 == vp.1 as int),
        r is None ==> spec_dec_str(s@, pos as int) is None,
{
    let n = s.len();
    match read_u64(s, pos) {
        Option::None => {
            proof {
                match spec_dec_nat(s@, pos as int) {
                    Option::Some(np) => {
                        lemma_dec_nat_pos(s@, pos as int, 0);
                        assert(np.0 > u64::MAX);
                        assert(np.1 + np.0 > s@.len());
                    },
                    Option::None => {},
                }
            }
            Option::None
        },
        Option::Some((len64, p)) => {
            proof {
                lemma_dec_nat_pos(s@, pos as int, 0);
            }
            if len64 <= (n - p) as u64 {
                let len = len64 as usize;
                let mut t: Vec<char> = Vec::new();
                let mut j: usize = 0;
                while j < len
                    invariant
                        j <= len,
                        p + len <= n,
                        n == s@.len(),
                        t@ == s@.subrange(p as int, p as int + j as int),
                    decreases len - j,
                {
                    t.push(s[p + j]);
                    assert(t@ =~= s@.subrange(p as int, p as int + j as int + 1));
                    j = j + 1;
                }
                let text = from_chars(&t);
                Option::Some((text, p + len))
            } else {
                Option::None
            }
        },
    }
}

/// A flag as one character.
pub open spec fn spec_enc_bool(b: bool) -> Seq<char> {
    if b {
        seq!['1']
    } else {
        seq!['0']
    }
}

/// A flag decoded at `pos`.
pub open spec fn spec_dec_bool(s: Seq<char>, pos: int) -> Option<(bool, int)> {
    if pos < 0 || pos >= s.len() {
        Option::None
    } else if s[pos] == '1' {
        Option::Some((true, pos + 1))
    } else if s[pos] == '0' {
        Option::Some((false, pos + 1))
    } else {
        Option::None
    }
}

pub proof fn lemma_dec_enc_bool(s: Seq<char>, pos: int, b: bool)
    requires
        0 <= pos,
        pos + 1 <= s.len(),
        s.subrange(pos, pos + 1) == spec_enc_bool(b),
    ensures
        spec_dec_bool(s, pos) == Option::Some((b, pos + 1)),
{
    assert(s[pos] == spec_enc_bool(b)[0]);
}

/// Append `spec_enc_bool(b)`.
pub fn write_bool(out: &mut Vec<char>, b: bool)
    ensures
        final(out)@ == old(out)@ + spec_enc_bool(b),
{
    out.push(if b {
        '1'
    } else {
        '0'
    });
    assert(out@ =~= old(out)@ + spec_enc_bool(b));
}

/// Decode a flag at `pos`.
pub fn read_bool(s: &Vec<char>, pos: usize) -> (r: Option<(bool, usize)>)
    ensures
        r matches Some(vp) ==> spec_dec_bool(s@, pos as int) == Option::Some(
            (vp.0, vp.1 as int),
        ),
        r is None ==> spec_dec_bool(s@, pos as int) is None,
{
    if pos >= s.len() {
        return Option::None;
    }
    let c = s[pos];
    if c == '1' {
        Option::Some((true, pos + 1))
    } else if c == '0' {
        Option::Some((false, pos + 1))
    } else {
        Option::None
    }
}

/// A role as one character.
pub open spec fn spec_enc_role(r: crate::types::Role) -> Seq<char> {
    match r {
        crate::types::Role::System => seq!['s'],
        crate::types::Role::User => seq!['u'],
        crate::types::Role::Assistant => seq!['a'],
        crate::types::Role::Function => seq!['f'],
    }
}

/// A role decoded at `pos`.
pub open spec fn spec_dec_role(s: Seq<char>, pos: int) -> Option<(crate::types::Role, int)> {
    if pos < 0 || pos >= s.len() {
        Option::None
    } else if s[pos] == 's' {
        Option::Some((crate::types::Role::System, pos + 1))
    } else if s[pos] == 'u' {
        Option::Some((crate::types::Role::User, pos + 1))
    } else if s[pos] == 'a' {
        Option::Some((crate::types::Role::Assistant, pos + 1))
    } else if s[pos] == 'f' {
        Option::Some((crate::types::Role::Function, pos + 1))
    } else {
        Option::None
    }
}

pub proof fn lemma_dec_enc_role(s: Seq<char>, pos: int, r: crate::types::Role)
    requires
        0 <= pos,
        pos + 1 <= s.len(),
        s.subrange(pos, pos + 1) == spec_enc_role(r),
    ensures
        spec_dec_role(s, pos) == Option::Some((r, pos + 1)),
{
    assert(s[pos] == spec_enc_role(r)[0]);
}

/// Append `spec_enc_role(r)`.
pub fn write_role(out: &mut Vec<char>, r: crate::types::Role)
    ensures
        final(out)@ == old(out)@ + spec_enc_role(r),
{
    out.push(
        match r {
            crate::types::Role::System => 's',
            crate::types::Role::User => 'u',
            crate::types::Role::Assistant => 'a',
            crate::types::Role::Function => 'f',
        },
    );
    assert(out@ =~= old(out)@ + spec_enc_role(r));
}

/// Decode a role at `pos`.
pub fn read_role(s: &Vec<char>, pos: usize) -> (r: Option<(crate::types::Role, usize)>)
    ensures
        r matches Some(vp) ==> spec_dec_role(s@, pos as int) == Option::Some(
            (vp.0, vp.1 as int),
        ),
        r is None ==> spec_dec_role(s@, pos as int) is None,
{
    if pos >= s.len() {
        return Option::None;
    }
    let c = s[pos];
    if c == 's' {
        Option::Some((crate::types::Role::System, pos + 1))
    } else if c == 'u' {
        Option::Some((crate::types::Role::User, pos + 1))
    } else if c == 'a' {
        Option::Some((crate::types::Role::Assistant, pos + 1))
    } else if c == 'f' {
        Option::Some((crate::types::Role::Function, pos + 1))
    } else {
        Option::None
    }
}

/// The pieces of a list's body, laid end to end.
pub open spec fn spec_concat(parts: Seq<Seq<char>>) -> Seq<char>
    decreases parts.len(),
{
    if parts.len() == 0 {
        Seq::empty()
    } else {
        parts[0] + spec_concat(parts.drop_first())
    }
}

/// Appending one more piece appends its characters.
proof fn lemma_concat_push(parts: Seq<Seq<char>>, x: Seq<char>)
    ensures
        spec_concat(parts.push(x)) == spec_concat(parts) + x,
    decreases parts.len(),
{
    if parts.len() == 0 {
        assert(parts.push(x).drop_first() =~= Seq::<Seq<char>>::empty());
        assert(parts.push(x)[0] == x);
        assert(parts.push(x).len() == 1);
        assert(spec_concat(Seq::<Seq<char>>::empty()) == Seq::<char>::empty());
        assert(spec_concat(parts.push(x)) == x + spec_concat(parts.push(x).drop_first()));
        assert(spec_concat(parts.push(x)) =~= x + Seq::<char>::empty());
        assert(x + Seq::<char>::empty() =~= x);
        assert(spec_concat(parts) + x =~= x);
    } else {
        assert(parts.push(x)[0] == parts[0]);
        assert(parts.push(x).drop_first() =~= parts.drop_first().push(x));
        lemma_concat_push(parts.drop_first(), x);
        assert(parts[0] + (spec_concat(parts.drop_first()) + x) =~= (parts[0] + spec_concat(
            parts.drop_first(),
        )) + x);
    }
}

proof fn lemma_acc_overflow(acc: nat, d: nat)
    requires
        d < 10,
        acc > (u64::MAX - d) / 10,
    ensures
        acc * 10 + d > u64::MAX,
{
    assert(acc * 10 + d > u64::MAX) by (nonlinear_arith)
        requires
            d < 10,
            acc > (u64::MAX - d) / 10;
}

/// A message's encoding: role, then content.
pub open spec fn spec_enc_message(m: MessageView) -> Seq<char> {
    spec_enc_role(m.role) + spec_enc_str(m.content)
}

/// A message decoded at `pos`.
pub open spec fn spec_dec_message(s: Seq<char>, pos: int) -> Option<(MessageView, int)> {
    match spec_dec_role(s, pos) {
        Option::Some(rp) => match spec_dec_str(s, rp.1) {
            Option::Some(cp) => Option::Some(
                (MessageView { role: rp.0, content: cp.0 }, cp.1),
            ),
            Option::None => Option::None,
        },
        Option::None => Option::None,
    }
}

proof fn lemma_dec_message_pos(s: Seq<char>, pos: int)
    ensures
        spec_dec_message(s, pos) matches Some(vp) ==> pos < vp.1 <= s.len(),
{
    match spec_dec_role(s, pos) {
        Option::Some(rp) => {
            lemma_dec_nat_pos(s, rp.1, 0);
        },
        Option::None => {},
    }
}

pub proof fn lemma_dec_enc_message(s: Seq<char>, pos: int, m: MessageView)
    requires
        0 <= pos,
        pos + spec_enc_message(m).len() <= s.len(),
        s.subrange(pos, pos + spec_enc_message(m).len() as int) == spec_enc_message(m),
    ensures
        spec_dec_message(s, pos) == Option::Some((m, pos + spec_enc_message(m).len())),
{
    let e1 = spec_enc_role(m.role);
    let l1 = e1.len() as int;
    let e2 = spec_enc_str(m.content);
    let l2 = e2.len() as int;
    let whole = spec_enc_message(m);
    lemma_segment(s, pos, whole, 0, l1);
    assert(whole.subrange(0, l1) =~= e1);
    lemma_dec_enc_role(s, pos, m.role);
    lemma_segment(s, pos, whole, l1, l1 + l2);
    assert(whole.subrange(l1, l1 + l2) =~= e2);
    lemma_dec_enc_str(s, pos + l1, m.content);
}

/// Append `spec_enc_message` of the message's view.
pub fn write_message(out: &mut Vec<char>, m: &Message)
    ensures
        final(out)@ == old(out)@ + spec_enc_message(m@),
{
    write_role(out, m.role);
    write_str(out, m.content.as_str());
    assert(out@ =~= old(out)@ + spec_enc_message(m@));
}

/// Decode a message at `pos`.
pub fn read_message(s: &Vec<char>, pos: usize) -> (r: Option<(Message, usize)>)
    ensures
        r matches Some(vp) ==> (spec_dec_message(s@, pos as int) matches Some(w) && w.0 == vp.0@
            && w.1 == vp.1 as int),
        r is None ==> spec_dec_message(s@, pos as int) is None,
{
    match read_role(s, pos) {
        Option::None => Option::None,
        Option::Some((role, p1)) => match read_str(s, p1) {
            Option::None => Option::None,
            Option::Some((content, p2)) => Option::Some((Message { role, content }, p2)),
        },
    }
}

/// The encodings of a message list's items.
pub open spec fn spec_enc_message_items(items: Seq<MessageView>) -> Seq<Seq<char>> {
    items.map_values(|m: MessageView| spec_enc_message(m))
}

/// A message list's encoding: the count, then the items end to end.
pub open spec fn spec_enc_message_list(items: Seq<MessageView>) -> Seq<char> {
    spec_enc_nat(items.len()) + spec_concat(spec_enc_message_items(items))
}

/// `count` messages decoded one after another from `pos`.
pub open spec fn spec_dec_message_list_rec(s: Seq<char>, pos: int, count: nat) -> Option<
    (Seq<MessageView>, int),
>
    decreases count,
{
    if count == 0 {
        Option::Some((Seq::empty(), pos))
    } else {
        match spec_dec_message(s, pos) {
            Option::Some(vp) => match spec_dec_message_list_rec(s, vp.1, (count - 1) as nat) {
                Option::Some(lp) => Option::Some((seq![vp.0] + lp.0, lp.1)),
                Option::None => Option::None,
            },
            Option::None => Option::None,
        }
    }
}

/// A message list decoded at `pos`.
pub open spec fn spec_dec_message_list(s: Seq<char>, pos: int) -> Option<(Seq<MessageView>, int)> {
    match spec_dec_nat(s, pos) {
        Option::Some(np) => spec_dec_message_list_rec(s, np.1, np.0),
        Option::None => Option::None,
    }
}

proof fn lemma_dec_message_list_rec_bound(s: Seq<char>, pos: int, count: nat)
    ensures
        spec_dec_message_list_rec(s, pos, count) matches Some(lp) ==> pos <= lp.1,
        spec_dec_message_list_rec(s, pos, count) matches Some(lp) ==> (count >= 1 ==> (pos < lp.1
            <= s.len() && count <= s.len() - pos)),
    decreases count,
{
    if count == 0 {
    } else {
        match spec_dec_message(s, pos) {
            Option::Some(vp) => {
                lemma_dec_message_pos(s, pos);
                lemma_dec_message_list_rec_bound(s, vp.1, (count - 1) as nat);
            },
            Option::None => {},
        }
    }
}

proof fn lemma_dec_enc_message_list_rec(s: Seq<char>, pos: int, items: Seq<MessageView>)
    requires
        0 <= pos,
        pos + spec_concat(spec_enc_message_items(items)).len() <= s.len(),
        s.subrange(pos, pos + spec_concat(spec_enc_message_items(items)).len() as int)
            == spec_concat(spec_enc_message_items(items)),
    ensures
        spec_dec_message_list_rec(s, pos, items.len()) == Option::Some(
            (items, pos + spec_concat(spec_enc_message_items(items)).len()),
        ),
    decreases items.len(),
{
    let parts = spec_enc_message_items(items);
    if items.len() == 0 {
        assert(items =~= Seq::<MessageView>::empty());
    } else {
        let e0 = spec_enc_message(items[0]);
        let l0 = e0.len() as int;
        let whole = spec_concat(parts);
        assert(parts[0] == e0);
        assert(whole == e0 + spec_concat(parts.drop_first()));
        let rest_items = items.drop_first();
        assert(parts.drop_first() =~= spec_enc_message_items(rest_items));
        lemma_segment(s, pos, whole, 0, l0);
        assert(whole.subrange(0, l0) =~= e0);
        lemma_dec_enc_message(s, pos, items[0]);
        lemma_segment(s, pos, whole, l0, whole.len() as int);
        assert(whole.subrange(l0, whole.len() as int) =~= spec_concat(
            spec_enc_message_items(rest_items),
        ));
        lemma_dec_enc_message_list_rec(s, pos + l0, rest_items);
        assert(seq![items[0]] + rest_items =~= items);
    }
}

/// Wherever a buffer carries an encoded message list, decoding there
/// yields the messages back.
pub proof fn lemma_dec_enc_message_list(s: Seq<char>, pos: int, items: Seq<MessageView>)
    requires
        0 <= pos,
        pos + spec_enc_message_list(items).len() <= s.len(),
        s.subrange(pos, pos + spec_enc_message_list(items).len() as int) == spec_enc_message_list(
            items,
        ),
    ensures
        spec_dec_message_list(s, pos) == Option::Some(
            (items, pos + spec_enc_message_list(items).len()),
        ),
{
    let e1 = spec_enc_nat(items.len());
    let l1 = e1.len() as int;
    let whole = spec_enc_message_list(items);
    lemma_segment(s, pos, whole, 0, l1);
    assert(whole.subrange(0, l1) =~= e1);
    lemma_dec_enc_nat(s, pos, items.len());
    lemma_segment(s, pos, whole, l1, whole.len() as int);
    assert(whole.subrange(l1, whole.len() as int) =~= spec_concat(
        spec_enc_message_items(items),
    ));
    lemma_dec_enc_message_list_rec(s, pos + l1, items);
}

/// Append `spec_enc_message_list` of the vector's views.
pub fn write_message_list(out: &mut Vec<char>, items: &Vec<Message>)
    ensures
        final(out)@ == old(out)@ + spec_enc_message_list(
            items@.map_values(|m: Message| m@),
        ),
{
    let ghost views = items@.map_values(|m: Message| m@);
    let len64 = items.len() as u64;
    write_nat(out, len64);
    let ghost base = out@;
    let mut i: usize = 0;
    proof {
        assert(spec_enc_message_items(views).subrange(0, 0) =~= Seq::<Seq<char>>::empty());
        assert(base + spec_concat(Seq::<Seq<char>>::empty()) =~= base);
    }
    while i < items.len()
        invariant
            i <= items@.len(),
            views == items@.map_values(|m: Message| m@),
            out@ == base + spec_concat(spec_enc_message_items(views).subrange(0, i as int)),
        decreases items@.len() - i,
    {
        write_message(out, &items[i]);
        proof {
            let pieces = spec_enc_message_items(views).subrange(0, i as int);
            lemma_concat_push(pieces, spec_enc_message(views[i as int]));
            assert(pieces.push(spec_enc_message(views[i as int]))
                =~= spec_enc_message_items(views).subrange(0, i as int + 1));
            assert(out@ =~= base + spec_concat(
                spec_enc_message_items(views).subrange(0, i as int + 1),
            ));
        }
        i = i + 1;
    }
    proof {
        assert(spec_enc_message_items(views).subrange(0, views.len() as int)
            =~= spec_enc_message_items(views));
        assert(out@ =~= old(out)@ + spec_enc_message_list(views));
    }
}

/// Decode a message list at `pos`.
pub fn read_message_list(s: &Vec<char>, pos: usize) -> (r: Option<(Vec<Message>, usize)>)
    ensures
        r matches Some(vp) ==> (spec_dec_message_list(s@, pos as int) matches Some(w) && w.0
            == vp.0@.map_values(|m: Message| m@) && w.1 == vp.1 as int),
        r is None ==> spec_dec_message_list(s@, pos as int) is None,
{
    let n = s.len();
    match read_u64(s, pos) {
        Option::None => {
            proof {
                match spec_dec_nat(s@, pos as int) {
                    Option::Some(np) => {
                        lemma_dec_nat_pos(s@, pos as int, 0);
                        lemma_dec_message_list_rec_bound(s@, np.1, np.0);
                    },
                    Option::None => {},
                }
            }
            Option::None
        },
        Option::Some((count64, p0)) => {
            proof {
                lemma_dec_nat_pos(s@, pos as int, 0);
            }
            if count64 > (n - p0) as u64 {
                proof {
                    lemma_dec_message_list_rec_bound(s@, p0 as int, count64 as nat);
                }
                return Option::None;
            }
            let count = count64 as usize;
            let mut items: Vec<Message> = Vec::new();
            let mut p: usize = p0;
            let mut i: usize = 0;
            while i < count
                invariant
                    i <= count,
                    p <= n,
                    n == s@.len(),
                    items@.len() == i,
                    spec_dec_nat(s@, pos as int) == Option::Some((count as nat, p0 as int)),
                    spec_dec_message_list_rec(s@, p0 as int, count as nat) == (match
                        spec_dec_message_list_rec(s@, p as int, (count - i) as nat) {
                        Option::Some(lp) => Option::Some(
                            (items@.map_values(|m: Message| m@) + lp.0, lp.1),
                        ),
                        Option::None => Option::None,
                    }),
                decreases count - i,
            {
                let ghost items0 = items@.map_values(|m: Message| m@);
                match read_message(s, p) {
                    Option::None => {
                        proof {
                            assert(count - i >= 1);
                            assert(spec_dec_message(s@, p as int) is None);
                            assert(spec_dec_message_list_rec(s@, p as int, (count - i) as nat)
                                is None);
                            assert(spec_dec_message_list_rec(s@, p0 as int, count as nat)
                                is None);
                            assert(spec_dec_message_list(s@, pos as int) is None);
                        }
                        return Option::None;
                    },
                    Option::Some((m, p2)) => {
                        proof {
                            lemma_dec_message_pos(s@, p as int);
                        }
                        items.push(m);
                        proof {
                            let mv = m@;
                            assert(items@.map_values(|m: Message| m@) =~= items0.push(mv));
                            match spec_dec_message_list_rec(s@, p2 as int, (count - i - 1) as nat) {
                                Option::Some(lp) => {
                                    assert(items0 + (seq![mv] + lp.0) =~= items0.push(mv) + lp.0);
                                },
                                Option::None => {},
                            }
                        }
                        p = p2;
                    },
                }
                i = i + 1;
            }
            proof {
                assert(items@.map_values(|m: Message| m@) + Seq::<MessageView>::empty()
                    =~= items@.map_values(|m: Message| m@));
            }
            Option::Some((items, p))
        },
    }
}

proof fn lemma_dec_str_pos(s: Seq<char>, pos: int)
    ensures
        spec_dec_str(s, pos) matches Some(vp) ==> pos < vp.1 <= s.len(),
{
    lemma_dec_nat_pos(s, pos, 0);
}

proof fn lemma_dec_bool_pos(s: Seq<char>, pos: int)
    ensures
        spec_dec_bool(s, pos) matches Some(vp) ==> pos < vp.1 <= s.len(),
{
}

proof fn lemma_dec_role_pos(s: Seq<char>, pos: int)
    ensures
        spec_dec_role(s, pos) matches Some(vp) ==> pos < vp.1 <= s.len(),
{
}

/// A 32-bit number, over the shared decimal form.
pub open spec fn spec_enc_u32(x: u32) -> Seq<char> {
    spec_enc_nat(x as nat)
}

/// A 32-bit number decoded at `pos`; values beyond `u32` are refused.
pub open spec fn spec_dec_u32(s: Seq<char>, pos: int) -> Option<(u32, int)> {
    match spec_dec_nat(s, pos) {
        Option::Some(np) => if np.0 <= u32::MAX {
            Option::Some((np.0 as u32, np.1))
        } else {
            Option::None
        },
        Option::None => Option::None,
    }
}

proof fn lemma_dec_u32_pos(s: Seq<char>, pos: int)
    ensures
        spec_dec_u32(s, pos) matches Some(vp) ==> pos < vp.1 <= s.len(),
{
    lemma_dec_nat_pos(s, pos, 0);
}

pub proof fn lemma_dec_enc_u32(s: Seq<char>, pos: int, x: u32)
    requires
        0 <= pos,
        pos + spec_enc_u32(x).len() <= s.len(),
        s.subrange(pos, pos + spec_enc_u32(x).len() as int) == spec_enc_u32(x),
    ensures
        spec_dec_u32(s, pos) == Option::Some((x, pos + spec_enc_u32(x).len())),
{
    lemma_dec_enc_nat(s, pos, x as nat);
}

/// Append `spec_enc_u32(x)`.
pub fn write_u32(out: &mut Vec<char>, x: u32)
    ensures
        final(out)@ == old(out)@ + spec_enc_u32(x),
{
    write_nat(out, x as u64);
}

/// Decode a 32-bit number at `pos`.
pub fn read_u32(s: &Vec<char>, pos: usize) -> (r: Option<(u32, usize)>)
    ensures
        r matches Some(vp) ==> spec_dec_u32(s@, pos as int) == Option::Some(
            (vp.0, vp.1 as int),
        ),
        r is None ==> spec_dec_u32(s@, pos as int) is None,
{
    match read_u64(s, pos) {
        Option::None => Option::None,
        Option::Some((v, p)) => {
            if v <= u32::MAX as u64 {
                Option::Some((v as u32, p))
            } else {
                Option::None
            }
        },
    }
}

/// A machine-word number, over the shared decimal form.
pub open spec fn spec_enc_usize(x: usize) -> Seq<char> {
    spec_enc_nat(x as nat)
}

/// A machine-word number decoded at `pos`; values beyond `usize` are
/// refused.
pub open spec fn spec_dec_usize(s: Seq<char>, pos: int) -> Option<(usize, int)> {
    match spec_dec_nat(s, pos) {
        Option::Some(np) => if np.0 <= usize::MAX {
            Option::Some((np.0 as usize, np.1))
        } else {
            Option::None
        },
        Option::None => Option::None,
    }
}

proof fn lemma_dec_usize_pos(s: Seq<char>, pos: int)
    ensures
        spec_dec_usize(s, pos) matches Some(vp) ==> pos < vp.1 <= s.len(),
{
    lemma_dec_nat_pos(s, pos, 0);
}

pub proof fn lemma_dec_enc_usize(s: Seq<char>, pos: int, x: usize)
    requires
        0 <= pos,
        pos + spec_enc_usize(x).len() <= s.len(),
        s.subrange(pos, pos + spec_enc_usize(x).len() as int) == spec_enc_usize(x),
    ensures
        spec_dec_usize(s, pos) == Option::Some((x, pos + spec_enc_usize(x).len())),
{
    lemma_dec_enc_nat(s, pos, x as nat);
}

/// Append `spec_enc_usize(x)`.
pub fn write_usize(out: &mut Vec<char>, x: usize)
    ensures
        final(out)@ == old(out)@ + spec_enc_usize(x),
{
    write_nat(out, x as u64);
}

/// Decode a machine-word number at `pos`.
pub fn read_usize(s: &Vec<char>, pos: usize) -> (r: Option<(usize, usize)>)
    ensures
        r matches Some(vp) ==> spec_dec_usize(s@, pos as int) == Option::Some(
            (vp.0, vp.1 as int),
        ),
        r is None ==> spec_dec_usize(s@, pos as int) is None,
{
    match read_u64(s, pos) {
        Option::None => Option::None,
        Option::Some((v, p)) => {
            if v <= usize::MAX as u64 {
                Option::Some((v as usize, p))
            } else {
                Option::None
            }
        },
    }
}

/// The stream fold state as one flag: `Closed` encodes as `'1'`.
pub open spec fn spec_enc_state(st: StreamState) -> Seq<char> {
    spec_enc_bool(st == StreamState::Closed)
}

/// A fold state decoded at `pos`.
pub open spec fn spec_dec_state(s: Seq<char>, pos: int) -> Option<(StreamState, int)> {
    match spec_dec_bool(s, pos) {
        Option::Some(bp) => Option::Some(
            (
                if bp.0 {
                    StreamState::Closed
                } else {
                    StreamState::Open
                },
                bp.1,
            ),
        ),
        Option::None => Option::None,
    }
}

proof fn lemma_dec_state_pos(s: Seq<char>, pos: int)
    ensures
        spec_dec_state(s, pos) matches Some(vp) ==> pos < vp.1 <= s.len(),
{
}

pub proof fn lemma_dec_enc_state(s: Seq<char>, pos: int, st: StreamState)
    requires
        0 <= pos,
        pos + spec_enc_state(st).len() <= s.len(),
        s.subrange(pos, pos + spec_enc_state(st).len() as int) == spec_enc_state(st),
    ensures
        spec_dec_state(s, pos) == Option::Some((st, pos + spec_enc_state(st).len())),
{
    lemma_dec_enc_bool(s, pos, st == StreamState::Closed);
}

/// Append `spec_enc_state(st)`.
pub fn write_state(out: &mut Vec<char>, st: StreamState)
    ensures
        final(out)@ == old(out)@ + spec_enc_state(st),
{
    write_bool(out, st == StreamState::Closed);
}

/// Decode a fold state at `pos`.
pub fn read_state(s: &Vec<char>, pos: usize) -> (r: Option<(StreamState, usize)>)
    ensures
        r matches Some(vp) ==> spec_dec_state(s@, pos as int) == Option::Some(
            (vp.0, vp.1 as int),
        ),
        r is None ==> spec_dec_state(s@, pos as int) is None,
{
    match read_bool(s, pos) {
        Option::None => Option::None,
        Option::Some((b, p)) => Option::Some(
            (
                if b {
                    StreamState::Closed
                } else {
                    StreamState::Open
                },
                p,
            ),
        ),
    }
}

/// The view of an optional string.
pub open spec fn opt_str_view(o: Option<String>) -> Option<Seq<char>> {
    match o {
        Option::Some(t) => Option::Some(t@),
        Option::None => Option::None,
    }
}

/// The view of an optional role (a role is its own view).
pub open spec fn opt_role_view(o: Option<Role>) -> Option<Role> {
    o
}

proof fn lemma_dec_message_list_pos(s: Seq<char>, pos: int)
    ensures
        spec_dec_message_list(s, pos) matches Some(vp) ==> pos < vp.1 <= s.len(),
{
    lemma_dec_nat_pos(s, pos, 0);
    match spec_dec_nat(s, pos) {
        Option::Some(np) => {
            lemma_dec_message_list_rec_bound(s, np.1, np.0);
        },
        Option::None => {},
    }
}

/// The encodings of a string list's items.
pub open spec fn spec_enc_str_items(items: Seq<Seq<char>>) -> Seq<Seq<char>> {
    items.map_values(|v: Seq<char>| spec_enc_str(v))
}

/// A string list's encoding: the count, then the strings.
pub open spec fn spec_enc_str_list(items: Seq<Seq<char>>) -> Seq<char> {
    spec_enc_nat(items.len()) + spec_concat(spec_enc_str_items(items))
}

/// `count` items decoded one after another from `pos`.
pub open spec fn spec_dec_str_list_rec(s: Seq<char>, pos: int, count: nat) -> Option<
    (Seq<Seq<char>>, int),
>
    decreases count,
{
    if count == 0 {
        Option::Some((Seq::empty(), pos))
    } else {
        match spec_dec_str(s, pos) {
            Option::Some(vp) => match spec_dec_str_list_rec(s, vp.1, (count - 1) as nat) {
                Option::Some(lp) => Option::Some((seq![vp.0] + lp.0, lp.1)),
                Option::None => Option::None,
            },
            Option::None => Option::None,
        }
    }
}

/// A string list decoded at `pos`.
pub open spec fn spec_dec_str_list(s: Seq<char>, pos: int) -> Option<(Seq<Seq<char>>, int)> {
    match spec_dec_nat(s, pos) {
        Option::Some(np) => spec_dec_str_list_rec(s, np.1, np.0),
        Option::None => Option::None,
    }
}

proof fn lemma_dec_str_list_rec_bound(s: Seq<char>, pos: int, count: nat)
    ensures
        spec_dec_str_list_rec(s, pos, count) matches Some(lp) ==> pos <= lp.1,
        spec_dec_str_list_rec(s, pos, count) matches Some(lp) ==> (count >= 1 ==> (pos < lp.1
            <= s.len() && count <= s.len() - pos)),
    decreases count,
{
    if count == 0 {
    } else {
        match spec_dec_str(s, pos) {
            Option::Some(vp) => {
                lemma_dec_str_pos(s, pos);
                lemma_dec_str_list_rec_bound(s, vp.1, (count - 1) as nat);
            },
            Option::None => {},
        }
    }
}

proof fn lemma_dec_str_list_pos(s: Seq<char>, pos: int)
    ensures
        spec_dec_str_list(s, pos) matches Some(vp) ==> pos < vp.1 <= s.len(),
{
    lemma_dec_nat_pos(s, pos, 0);
    match spec_dec_nat(s, pos) {
        Option::Some(np) => {
            lemma_dec_str_list_rec_bound(s, np.1, np.0);
            if np.0 == 0 {
            }
        },
        Option::None => {},
    }
}

proof fn lemma_dec_enc_str_list_rec(s: Seq<char>, pos: int, items: Seq<Seq<char>>)
    requires
        0 <= pos,
        pos + spec_concat(spec_enc_str_items(items)).len() <= s.len(),
        s.subrange(pos, pos + spec_concat(spec_enc_str_items(items)).len() as int)
            == spec_concat(spec_enc_str_items(items)),
    ensures
        spec_dec_str_list_rec(s, pos, items.len()) == Option::Some(
            (items, pos + spec_concat(spec_enc_str_items(items)).len()),
        ),
    decreases items.len(),
{
    let parts = spec_enc_str_items(items);
    if items.len() == 0 {
        assert(items =~= Seq::<Seq<char>>::empty());
    } else {
        let e0 = spec_enc_str(items[0]);
        let l0 = e0.len() as int;
        let whole = spec_concat(parts);
        assert(parts[0] == e0);
        assert(whole == e0 + spec_concat(parts.drop_first()));
        let rest_items = items.drop_first();
        assert(parts.drop_first() =~= spec_enc_str_items(rest_items));
        lemma_segment(s, pos, whole, 0, l0);
        assert(whole.subrange(0, l0) =~= e0);
        lemma_dec_enc_str(s, pos, items[0]);
        lemma_segment(s, pos, whole, l0, whole.len() as int);
        assert(whole.subrange(l0, whole.len() as int) =~= spec_concat(
            spec_enc_str_items(rest_items),
        ));
        lemma_dec_enc_str_list_rec(s, pos + l0, rest_items);
        assert(seq![items[0]] + rest_items =~= items);
    }
}

/// Wherever a buffer carries an encoded string list,
/// decoding there yields the items back.
pub proof fn lemma_dec_enc_str_list(s: Seq<char>, pos: int, items: Seq<Seq<char>>)
    requires
        0 <= pos,
        pos + spec_enc_str_list(items).len() <= s.len(),
        s.subrange(pos, pos + spec_enc_str_list(items).len() as int) == spec_enc_str_list(items),
    ensures
        spec_dec_str_list(s, pos) == Option::Some((items, pos + spec_enc_str_list(items).len())),
{
    let e1 = spec_enc_nat(items.len());
    let l1 = e1.len() as int;
    let whole = spec_enc_str_list(items);
    lemma_segment(s, pos, whole, 0, l1);
    assert(whole.subrange(0, l1) =~= e1);
    lemma_dec_enc_nat(s, pos, items.len());
    lemma_segment(s, pos, whole, l1, whole.len() as int);
    assert(whole.subrange(l1, whole.len() as int) =~= spec_concat(
        spec_enc_str_items(items),
    ));
    lemma_dec_enc_str_list_rec(s, pos + l1, items);
}

/// Append `spec_enc_str_list` of the strings' views.
pub fn write_str_list(out: &mut Vec<char>, items: &Vec<String>)
    ensures
        final(out)@ == old(out)@ + spec_enc_str_list(items@.map_values(|t: String| t@)),
{
    let ghost views = items@.map_values(|t: String| t@);
    let len64 = items.len() as u64;
    write_nat(out, len64);
    let ghost base = out@;
    let mut i: usize = 0;
    proof {
        assert(spec_enc_str_items(views).subrange(0, 0) =~= Seq::<Seq<char>>::empty());
        assert(base + spec_concat(Seq::<Seq<char>>::empty()) =~= base);
    }
    while i < items.len()
        invariant
            i <= items@.len(),
            views == items@.map_values(|t: String| t@),
            out@ == base + spec_concat(spec_enc_str_items(views).subrange(0, i as int)),
        decreases items@.len() - i,
    {
        write_str(out, &items[i]);
        proof {
            let pieces = spec_enc_str_items(views).subrange(0, i as int);
            lemma_concat_push(pieces, spec_enc_str(views[i as int]));
            assert(pieces.push(spec_enc_str(views[i as int]))
                =~= spec_enc_str_items(views).subrange(0, i as int + 1));
            assert(out@ =~= base + spec_concat(
                spec_enc_str_items(views).subrange(0, i as int + 1),
            ));
        }
        i = i + 1;
    }
    proof {
        assert(spec_enc_str_items(views).subrange(0, views.len() as int)
            =~= spec_enc_str_items(views));
        assert(out@ =~= old(out)@ + spec_enc_str_list(views));
    }
}

/// Decode a string list at `pos`.
pub fn read_str_list(s: &Vec<char>, pos: usize) -> (r: Option<(Vec<String>, usize)>)
    ensures
        r matches Some(vp) ==> (spec_dec_str_list(s@, pos as int) matches Some(w) && w.0
            == vp.0@.map_values(|t: String| t@) && w.1 == vp.1 as int),
        r is None ==> spec_dec_str_list(s@, pos as int) is None,
{
    let n = s.len();
    match read_u64(s, pos) {
        Option::None => {
            proof {
                match spec_dec_nat(s@, pos as int) {
                    Option::Some(np) => {
                        lemma_dec_nat_pos(s@, pos as int, 0);
                        lemma_dec_str_list_rec_bound(s@, np.1, np.0);
                    },
                    Option::None => {},
                }
            }
            Option::None
        },
        Option::Some((count64, p0)) => {
            proof {
                lemma_dec_nat_pos(s@, pos as int, 0);
            }
            if count64 > (n - p0) as u64 {
                proof {
                    lemma_dec_str_list_rec_bound(s@, p0 as int, count64 as nat);
                }
                return Option::None;
            }
            let count = count64 as usize;
            let mut items: Vec<String> = Vec::new();
            let mut p: usize = p0;
            let mut i: usize = 0;
            while i < count
                invariant
                    i <= count,
                    p <= n,
                    n == s@.len(),
                    items@.len() == i,
                    spec_dec_nat(s@, pos as int) == Option::Some((count as nat, p0 as int)),
                    spec_dec_str_list_rec(s@, p0 as int, count as nat) == (match
                        spec_dec_str_list_rec(s@, p as int, (count - i) as nat) {
                        Option::Some(lp) => Option::Some(
                            (items@.map_values(|t: String| t@) + lp.0, lp.1),
                        ),
                        Option::None => Option::None,
                    }),
                decreases count - i,
            {
                let ghost items0 = items@.map_values(|t: String| t@);
                match read_str(s, p) {
                    Option::None => {
                        proof {
                            assert(count - i >= 1);
                            assert(spec_dec_str(s@, p as int) is None);
                            assert(spec_dec_str_list_rec(s@, p as int, (count - i) as nat)
                                is None);
                            assert(spec_dec_str_list_rec(s@, p0 as int, count as nat) is None);
                            assert(spec_dec_str_list(s@, pos as int) is None);
                        }
                        return Option::None;
                    },
                    Option::Some((m, p2)) => {
                        proof {
                            lemma_dec_str_pos(s@, p as int);
                        }
                        items.push(m);
                        proof {
                            let mv = m@;
                            assert(items@.map_values(|t: String| t@) =~= items0.push(mv));
                            match spec_dec_str_list_rec(s@, p2 as int, (count - i - 1) as nat) {
                                Option::Some(lp) => {
                                    assert(items0 + (seq![mv] + lp.0) =~= items0.push(mv) + lp.0);
                                },
                                Option::None => {},
                            }
                        }
                        p = p2;
                    },
                }
                i = i + 1;
            }
            proof {
                assert(items@.map_values(|t: String| t@) + Seq::<Seq<char>>::empty()
                    =~= items@.map_values(|t: String| t@));
            }
            Option::Some((items, p))
        },
    }
}

/// An optional string: a `'0'` tag, or `'1'` and the string.
pub open spec fn spec_enc_opt_str(o: Option<Seq<char>>) -> Seq<char> {
    match o {
        Option::None => seq!['0'],
        Option::Some(v) => seq!['1'] + spec_enc_str(v),
    }
}

/// An optional string decoded at `pos`.
pub open spec fn spec_dec_opt_str(s: Seq<char>, pos: int) -> Option<(Option<Seq<char>>, int)> {
    if pos < 0 || pos >= s.len() {
        Option::None
    } else if s[pos] == '0' {
        Option::Some((Option::None, pos + 1))
    } else if s[pos] == '1' {
        match spec_dec_str(s, pos + 1) {
            Option::Some(vp) => Option::Some((Option::Some(vp.0), vp.1)),
            Option::None => Option::None,
        }
    } else {
        Option::None
    }
}

proof fn lemma_dec_opt_str_pos(s: Seq<char>, pos: int)
    ensures
        spec_dec_opt_str(s, pos) matches Some(vp) ==> pos < vp.1 <= s.len(),
{
    if 0 <= pos < s.len() && s[pos] == '1' {
        lemma_dec_str_pos(s, pos + 1);
    }
}

pub proof fn lemma_dec_enc_opt_str(s: Seq<char>, pos: int, o: Option<Seq<char>>)
    requires
        0 <= pos,
        pos + spec_enc_opt_str(o).len() <= s.len(),
        s.subrange(pos, pos + spec_enc_opt_str(o).len() as int) == spec_enc_opt_str(o),
    ensures
        spec_dec_opt_str(s, pos) == Option::Some((o, pos + spec_enc_opt_str(o).len())),
{
    let whole = spec_enc_opt_str(o);
    assert(s[pos] == whole[0]);
    match o {
        Option::None => {},
        Option::Some(v) => {
            lemma_segment(s, pos, whole, 1, whole.len() as int);
            assert(whole.subrange(1, whole.len() as int) =~= spec_enc_str(v));
            lemma_dec_enc_str(s, pos + 1, v);
        },
    }
}

/// Append `spec_enc_opt_str` of the value's view.
pub fn write_opt_str(out: &mut Vec<char>, o: &Option<String>)
    ensures
        final(out)@ == old(out)@ + spec_enc_opt_str(opt_str_view(*o)),
{
    match o {
        Option::None => {
            out.push('0');
            assert(out@ =~= old(out)@ + spec_enc_opt_str(opt_str_view(*o)));
        },
        Option::Some(v) => {
            out.push('1');
            write_str(out, v.as_str());
            assert(out@ =~= old(out)@ + spec_enc_opt_str(opt_str_view(*o)));
        },
    }
}

/// Decode an optional string at `pos`.
pub fn read_opt_str(s: &Vec<char>, pos: usize) -> (r: Option<(Option<String>, usize)>)
    ensures
        r matches Some(vp) ==> (spec_dec_opt_str(s@, pos as int) matches Some(w) && w.0
            == opt_str_view(vp.0) && w.1 == vp.1 as int),
        r is None ==> spec_dec_opt_str(s@, pos as int) is None,
{
    if pos >= s.len() {
        return Option::None;
    }
    let c = s[pos];
    if c == '0' {
        Option::Some((Option::None, pos + 1))
    } else if c == '1' {
        match read_str(s, pos + 1) {
            Option::None => Option::None,
            Option::Some((v, p)) => Option::Some((Option::Some(v), p)),
        }
    } else {
        Option::None
    }
}

/// An optional role: a `'0'` tag, or `'1'` and the role.
pub open spec fn spec_enc_opt_role(o: Option<Role>) -> Seq<char> {
    match o {
        Option::None => seq!['0'],
        Option::Some(v) => seq!['1'] + spec_enc_role(v),
    }
}

/// An optional role decoded at `pos`.
pub open spec fn spec_dec_opt_role(s: Seq<char>, pos: int) -> Option<(Option<Role>, int)> {
    if pos < 0 || pos >= s.len() {
        Option::None
    } else if s[pos] == '0' {
        Option::Some((Option::None, pos + 1))
    } else if s[pos] == '1' {
        match spec_dec_role(s, pos + 1) {
            Option::Some(vp) => Option::Some((Option::Some(vp.0), vp.1)),
            Option::None => Option::None,
        }
    } else {
        Option::None
    }
}

proof fn lemma_dec_opt_role_pos(s: Seq<char>, pos: int)
    ensures
        spec_dec_opt_role(s, pos) matches Some(vp) ==> pos < vp.1 <= s.len(),
{
    if 0 <= pos < s.len() && s[pos] == '1' {
        lemma_dec_role_pos(s, pos + 1);
    }
}

pub proof fn lemma_dec_enc_opt_role(s: Seq<char>, pos: int, o: Option<Role>)
    requires
        0 <= pos,
        pos + spec_enc_opt_role(o).len() <= s.len(),
        s.subrange(pos, pos + spec_enc_opt_role(o).len() as int) == spec_enc_opt_role(o),
    ensures
        spec_dec_opt_role(s, pos) == Option::Some((o, pos + spec_enc_opt_role(o).len())),
{
    let whole = spec_enc_opt_role(o);
    assert(s[pos] == whole[0]);
    match o {
        Option::None => {},
        Option::Some(v) => {
            lemma_segment(s, pos, whole, 1, whole.len() as int);
            assert(whole.subrange(1, whole.len() as int) =~= spec_enc_role(v));
            lemma_dec_enc_role(s, pos + 1, v);
        },
    }
}

/// Append `spec_enc_opt_role` of the value's view.
pub fn write_opt_role(out: &mut Vec<char>, o: &Option<Role>)
    ensures
        final(out)@ == old(out)@ + spec_enc_opt_role(opt_role_view(*o)),
{
    match o {
        Option::None => {
            out.push('0');
            assert(out@ =~= old(out)@ + spec_enc_opt_role(opt_role_view(*o)));
        },
        Option::Some(v) => {
            out.push('1');
            write_role(out, *v);
            assert(out@ =~= old(out)@ + spec_enc_opt_role(opt_role_view(*o)));
        },
    }
}

/// Decode an optional role at `pos`.
pub fn read_opt_role(s: &Vec<char>, pos: usize) -> (r: Option<(Option<Role>, usize)>)
    ensures
        r matches Some(vp) ==> (spec_dec_opt_role(s@, pos as int) matches Some(w) && w.0
            == opt_role_view(vp.0) && w.1 == vp.1 as int),
        r is None ==> spec_dec_opt_role(s@, pos as int) is None,
{
    if pos >= s.len() {
        return Option::None;
    }
    let c = s[pos];
    if c == '0' {
        Option::Some((Option::None, pos + 1))
    } else if c == '1' {
        match read_role(s, pos + 1) {
            Option::None => Option::None,
            Option::Some((v, p)) => Option::Some((Option::Some(v), p)),
        }
    } else {
        Option::None
    }
}

/// A chat choice's encoding: its fields in order.
pub open spec fn spec_enc_chat_choice(v: ChatChoiceView) -> Seq<char> {
    spec_enc_role(v.role) + spec_enc_str(v.content)
}

/// A chat choice decoded at `pos`.
pub open spec fn spec_dec_chat_choice(s: Seq<char>, pos: int) -> Option<(ChatChoiceView, int)> {
    match spec_dec_role(s, pos) {
        Option::Some(x0) => {
        match spec_dec_str(s, x0.1) {
            Option::Some(x1) => {
            Option::Some((ChatChoiceView { role: x0.0, content: x1.0 }, x1.1))
            },
            Option::None => Option::None,
        }
        },
        Option::None => Option::None,
    }

}

proof fn lemma_dec_chat_choice_pos(s: Seq<char>, pos: int)
    ensures
        spec_dec_chat_choice(s, pos) matches Some(vp) ==> pos < vp.1 <= s.len(),
{
    lemma_dec_role_pos(s, pos);
    match spec_dec_role(s, pos) {
        Option::Some(x0) => {
            lemma_dec_str_pos(s, x0.1);
        },
        Option::None => {},
    }

}

pub proof fn lemma_dec_enc_chat_choice(s: Seq<char>, pos: int, v: ChatChoiceView)
    requires
        0 <= pos,
        pos + spec_enc_chat_choice(v).len() <= s.len(),
        s.subrange(pos, pos + spec_enc_chat_choice(v).len() as int) == spec_enc_chat_choice(v),
    ensures
        spec_dec_chat_choice(s, pos) == Option::Some((v, pos + spec_enc_chat_choice(v).len())),
{
    let e0 = spec_enc_role(v.role);
    let l0 = e0.len() as int;
    let e1 = spec_enc_str(v.content);
    let l1 = e1.len() as int;
    let whole = spec_enc_chat_choice(v);
    lemma_segment(s, pos, whole, 0, l0);
    assert(whole.subrange(0, l0) =~= e0);
    lemma_dec_enc_role(s, pos, v.role);
    lemma_segment(s, pos, whole, l0, l0 + l1);
    assert(whole.subrange(l0, l0 + l1) =~= e1);
    lemma_dec_enc_str(s, pos + l0, v.content);
}

/// Append `spec_enc_chat_choice` of the value's view.
pub fn write_chat_choice(out: &mut Vec<char>, v: &ChatChoice)
    ensures
        final(out)@ == old(out)@ + spec_enc_chat_choice(v@),
{
    write_role(out, v.role);
    write_str(out, v.content.as_str());
    assert(out@ =~= old(out)@ + spec_enc_chat_choice(v@));
}

/// Decode a chat choice at `pos`.
pub fn read_chat_choice(s: &Vec<char>, pos: usize) -> (r: Option<(ChatChoice, usize)>)
    ensures
        r matches Some(vp) ==> (spec_dec_chat_choice(s@, pos as int) matches Some(w) && w.0 == vp.0@
            && w.1 == vp.1 as int),
        r is None ==> spec_dec_chat_choice(s@, pos as int) is None,
{
    match read_role(s, pos) {
        Option::None => Option::None,
        Option::Some((y0, p0)) => {
            match read_str(s, p0) {
                Option::None => Option::None,
                Option::Some((y1, p1)) => {
                    Option::Some((ChatChoice { role: y0, content: y1 }, p1))
                },
            }
        },
    }

}

/// The encodings of a chat choice list's items.
pub open spec fn spec_enc_chat_choice_items(items: Seq<ChatChoiceView>) -> Seq<Seq<char>> {
    items.map_values(|v: ChatChoiceView| spec_enc_chat_choice(v))
}

/// A chat choice list's encoding: the count, then the items.
pub open spec fn spec_enc_chat_choice_list(items: Seq<ChatChoiceView>) -> Seq<char> {
    spec_enc_nat(items.len()) + spec_concat(spec_enc_chat_choice_items(items))
}

/// `count` items decoded one after another from `pos`.
pub open spec fn spec_dec_chat_choice_list_rec(s: Seq<char>, pos: int, count: nat) -> Option<
    (Seq<ChatChoiceView>, int),
>
    decreases count,
{
    if count == 0 {
        Option::Some((Seq::empty(), pos))
    } else {
        match spec_dec_chat_choice(s, pos) {
            Option::Some(vp) => match spec_dec_chat_choice_list_rec(s, vp.1, (count - 1) as nat) {
                Option::Some(lp) => Option::Some((seq![vp.0] + lp.0, lp.1)),
                Option::None => Option::None,
            },
            Option::None => Option::None,
        }
    }
}

/// A chat choice list decoded at `pos`.
pub open spec fn spec_dec_chat_choice_list(s: Seq<char>, pos: int) -> Option<(Seq<ChatChoiceView>, int)> {
    match spec_dec_nat(s, pos) {
        Option::Some(np) => spec_dec_chat_choice_list_rec(s, np.1, np.0),
        Option::None => Option::None,
    }
}

proof fn lemma_dec_chat_choice_list_rec_bound(s: Seq<char>, pos: int, count: nat)
    ensures
        spec_dec_chat_choice_list_rec(s, pos, count) matches Some(lp) ==> pos <= lp.1,
        spec_dec_chat_choice_list_rec(s, pos, count) matches Some(lp) ==> (count >= 1 ==> (pos < lp.1
            <= s.len() && count <= s.len() - pos)),
    decreases count,
{
    if count == 0 {
    } else {
        match spec_dec_chat_choice(s, pos) {
            Option::Some(vp) => {
                lemma_dec_chat_choice_pos(s, pos);
                lemma_dec_chat_choice_list_rec_bound(s, vp.1, (count - 1) as nat);
            },
            Option::None => {},
        }
    }
}

proof fn lemma_dec_chat_choice_list_pos(s: Seq<char>, pos: int)
    ensures
        spec_dec_chat_choice_list(s, pos) matches Some(vp) ==> pos < vp.1 <= s.len(),
{
    lemma_dec_nat_pos(s, pos, 0);
    match spec_dec_nat(s, pos) {
        Option::Some(np) => {
            lemma_dec_chat_choice_list_rec_bound(s, np.1, np.0);
            if np.0 == 0 {
            }
        },
        Option::None => {},
    }
}

proof fn lemma_dec_enc_chat_choice_list_rec(s: Seq<char>, pos: int, items: Seq<ChatChoiceView>)
    requires
        0 <= pos,
        pos + spec_concat(spec_enc_chat_choice_items(items)).len() <= s.len(),
        s.subrange(pos, pos + spec_concat(spec_enc_chat_choice_items(items)).len() as int)
            == spec_concat(spec_enc_chat_choice_items(items)),
    ensures
        spec_dec_chat_choice_list_rec(s, pos, items.len()) == Option::Some(
            (items, pos + spec_concat(spec_enc_chat_choice_items(items)).len()),
        ),
    decreases items.len(),
{
    let parts = spec_enc_chat_choice_items(items);
    if items.len() == 0 {
        assert(items =~= Seq::<ChatChoiceView>::empty());
    } else {
        let e0 = spec_enc_chat_choice(items[0]);
        let l0 = e0.len() as int;
        let whole = spec_concat(parts);
        assert(parts[0] == e0);
        assert(whole == e0 + spec_concat(parts.drop_first()));
        let rest_items = items.drop_first();
        assert(parts.drop_first() =~= spec_enc_chat_choice_items(rest_items));
        lemma_segment(s, pos, whole, 0, l0);
        assert(whole.subrange(0, l0) =~= e0);
        lemma_dec_enc_chat_choice(s, pos, items[0]);
        lemma_segment(s, pos, whole, l0, whole.len() as int);
        assert(whole.subrange(l0, whole.len() as int) =~= spec_concat(
            spec_enc_chat_choice_items(rest_items),
        ));
        lemma_dec_enc_chat_choice_list_rec(s, pos + l0, rest_items);
        assert(seq![items[0]] + rest_items =~= items);
    }
}

/// Wherever a buffer carries an encoded chat choice list,
/// decoding there yields the items back.
pub proof fn lemma_dec_enc_chat_choice_list(s: Seq<char>, pos: int, items: Seq<ChatChoiceView>)
    requires
        0 <= pos,
        pos + spec_enc_chat_choice_list(items).len() <= s.len(),
        s.subrange(pos, pos + spec_enc_chat_choice_list(items).len() as int) == spec_enc_chat_choice_list(items),
    ensures
        spec_dec_chat_choice_list(s, pos) == Option::Some((items, pos + spec_enc_chat_choice_list(items).len())),
{
    let e1 = spec_enc_nat(items.len());
    let l1 = e1.len() as int;
    let whole = spec_enc_chat_choice_list(items);
    lemma_segment(s, pos, whole, 0, l1);
    assert(whole.subrange(0, l1) =~= e1);
    lemma_dec_enc_nat(s, pos, items.len());
    lemma_segment(s, pos, whole, l1, whole.len() as int);
    assert(whole.subrange(l1, whole.len() as int) =~= spec_concat(
        spec_enc_chat_choice_items(items),
    ));
    lemma_dec_enc_chat_choice_list_rec(s, pos + l1, items);
}

/// Append `spec_enc_chat_choice_list` of the vector's views.
pub fn write_chat_choice_list(out: &mut Vec<char>, items: &Vec<ChatChoice>)
    ensures
        final(out)@ == old(out)@ + spec_enc_chat_choice_list(items@.map_values(|c: ChatChoice| c@)),
{
    let ghost views = items@.map_values(|c: ChatChoice| c@);
    let len64 = items.len() as u64;
    write_nat(out, len64);
    let ghost base = out@;
    let mut i: usize = 0;
    proof {
        assert(spec_enc_chat_choice_items(views).subrange(0, 0) =~= Seq::<Seq<char>>::empty());
        assert(base + spec_concat(Seq::<Seq<char>>::empty()) =~= base);
    }
    while i < items.len()
        invariant
            i <= items@.len(),
            views == items@.map_values(|c: ChatChoice| c@),
            out@ == base + spec_concat(spec_enc_chat_choice_items(views).subrange(0, i as int)),
        decreases items@.len() - i,
    {
        write_chat_choice(out, &items[i]);
        proof {
            let pieces = spec_enc_chat_choice_items(views).subrange(0, i as int);
            lemma_concat_push(pieces, spec_enc_chat_choice(views[i as int]));
            assert(pieces.push(spec_enc_chat_choice(views[i as int]))
                =~= spec_enc_chat_choice_items(views).subrange(0, i as int + 1));
            assert(out@ =~= base + spec_concat(
                spec_enc_chat_choice_items(views).subrange(0, i as int + 1),
            ));
        }
        i = i + 1;
    }
    proof {
        assert(spec_enc_chat_choice_items(views).subrange(0, views.len() as int)
            =~= spec_enc_chat_choice_items(views));
        assert(out@ =~= old(out)@ + spec_enc_chat_choice_list(views));
    }
}

/// Decode a chat choice list at `pos`.
pub fn read_chat_choice_list(s: &Vec<char>, pos: usize) -> (r: Option<(Vec<ChatChoice>, usize)>)
    ensures
        r matches Some(vp) ==> (spec_dec_chat_choice_list(s@, pos as int) matches Some(w) && w.0
            == vp.0@.map_values(|c: ChatChoice| c@) && w.1 == vp.1 as int),
        r is None ==> spec_dec_chat_choice_list(s@, pos as int) is None,
{
    let n = s.len();
    match read_u64(s, pos) {
        Option::None => {
            proof {
                match spec_dec_nat(s@, pos as int) {
                    Option::Some(np) => {
                        lemma_dec_nat_pos(s@, pos as int, 0);
                        lemma_dec_chat_choice_list_rec_bound(s@, np.1, np.0);
                    },
                    Option::None => {},
                }
            }
            Option::None
        },
        Option::Some((count64, p0)) => {
            proof {
                lemma_dec_nat_pos(s@, pos as int, 0);
            }
            if count64 > (n - p0) as u64 {
                proof {
                    lemma_dec_chat_choice_list_rec_bound(s@, p0 as int, count64 as nat);
                }
                return Option::None;
            }
            let count = count64 as usize;
            let mut items: Vec<ChatChoice> = Vec::new();
            let mut p: usize = p0;
            let mut i: usize = 0;
            while i < count
                invariant
                    i <= count,
                    p <= n,
                    n == s@.len(),
                    items@.len() == i,
                    spec_dec_nat(s@, pos as int) == Option::Some((count as nat, p0 as int)),
                    spec_dec_chat_choice_list_rec(s@, p0 as int, count as nat) == (match
                        spec_dec_chat_choice_list_rec(s@, p as int, (count - i) as nat) {
                        Option::Some(lp) => Option::Some(
                            (items@.map_values(|c: ChatChoice| c@) + lp.0, lp.1),
                        ),
                        Option::None => Option::None,
                    }),
                decreases count - i,
            {
                let ghost items0 = items@.map_values(|c: ChatChoice| c@);
                match read_chat_choice(s, p) {
                    Option::None => {
                        proof {
                            assert(count - i >= 1);
                            assert(spec_dec_chat_choice(s@, p as int) is None);
                            assert(spec_dec_chat_choice_list_rec(s@, p as int, (count - i) as nat)
                                is None);
                            assert(spec_dec_chat_choice_list_rec(s@, p0 as int, count as nat) is None);
                            assert(spec_dec_chat_choice_list(s@, pos as int) is None);
                        }
                        return Option::None;
                    },
                    Option::Some((m, p2)) => {
                        proof {
                            lemma_dec_chat_choice_pos(s@, p as int);
                        }
                        items.push(m);
                        proof {
                            let mv = m@;
                            assert(items@.map_values(|c: ChatChoice| c@) =~= items0.push(mv));
                            match spec_dec_chat_choice_list_rec(s@, p2 as int, (count - i - 1) as nat) {
                                Option::Some(lp) => {
                                    assert(items0 + (seq![mv] + lp.0) =~= items0.push(mv) + lp.0);
                                },
                                Option::None => {},
                            }
                        }
                        p = p2;
                    },
                }
                i = i + 1;
            }
            proof {
                assert(items@.map_values(|c: ChatChoice| c@) + Seq::<ChatChoiceView>::empty()
                    =~= items@.map_values(|c: ChatChoice| c@));
            }
            Option::Some((items, p))
        },
    }
}

/// A stream choice's encoding: its fields in order.
pub open spec fn spec_enc_stream_choice(v: StreamChoiceView) -> Seq<char> {
    spec_enc_opt_role(v.role) + spec_enc_str(v.content) + spec_enc_opt_str(v.finish_reason)
}

/// A stream choice decoded at `pos`.
pub open spec fn spec_dec_stream_choice(s: Seq<char>, pos: int) -> Option<(StreamChoiceView, int)> {
    match spec_dec_opt_role(s, pos) {
        Option::Some(x0) => {
        match spec_dec_str(s, x0.1) {
            Option::Some(x1) => {
            match spec_dec_opt_str(s, x1.1) {
                Option::Some(x2) => {
                Option::Some((StreamChoiceView { role: x0.0, content: x1.0, finish_reason: x2.0 }, x2.1))
                },
                Option::None => Option::None,
            }
            },
            Option::None => Option::None,
        }
        },
        Option::None => Option::None,
    }

}

proof fn lemma_dec_stream_choice_pos(s: Seq<char>, pos: int)
    ensures
        spec_dec_stream_choice(s, pos) matches Some(vp) ==> pos < vp.1 <= s.len(),
{
    lemma_dec_opt_role_pos(s, pos);
    match spec_dec_opt_role(s, pos) {
        Option::Some(x0) => {
            lemma_dec_str_pos(s, x0.1);
            match spec_dec_str(s, x0.1) {
                Option::Some(x1) => {
                    lemma_dec_opt_str_pos(s, x1.1);
                },
                Option::None => {},
            }
        },
        Option::None => {},
    }

}

pub proof fn lemma_dec_enc_stream_choice(s: Seq<char>, pos: int, v: StreamChoiceView)
    requires
        0 <= pos,
        pos + spec_enc_stream_choice(v).len() <= s.len(),
        s.subrange(pos, pos + spec_enc_stream_choice(v).len() as int) == spec_enc_stream_choice(v),
    ensures
        spec_dec_stream_choice(s, pos) == Option::Some((v, pos + spec_enc_stream_choice(v).len())),
{
    let e0 = spec_enc_opt_role(v.role);
    let l0 = e0.len() as int;
    let e1 = spec_enc_str(v.content);
    let l1 = e1.len() as int;
    let e2 = spec_enc_opt_str(v.finish_reason);
    let l2 = e2.len() as int;
    let whole = spec_enc_stream_choice(v);
    lemma_segment(s, pos, whole, 0, l0);
    assert(whole.subrange(0, l0) =~= e0);
    lemma_dec_enc_opt_role(s, pos, v.role);
    lemma_segment(s, pos, whole, l0, l0 + l1);
    assert(whole.subrange(l0, l0 + l1) =~= e1);
    lemma_dec_enc_str(s, pos + l0, v.content);
    lemma_segment(s, pos, whole, l0 + l1, l0 + l1 + l2);
    assert(whole.subrange(l0 + l1, l0 + l1 + l2) =~= e2);
    lemma_dec_enc_opt_str(s, pos + l0 + l1, v.finish_reason);
}

/// Append `spec_enc_stream_choice` of the value's view.
pub fn write_stream_choice(out: &mut Vec<char>, v: &StreamChoice)
    ensures
        final(out)@ == old(out)@ + spec_enc_stream_choice(v@),
{
    write_opt_role(out, &v.role);
    write_str(out, v.content.as_str());
    write_opt_str(out, &v.finish_reason);
    assert(out@ =~= old(out)@ + spec_enc_stream_choice(v@));
}

/// Decode a stream choice at `pos`.
pub fn read_stream_choice(s: &Vec<char>, pos: usize) -> (r: Option<(StreamChoice, usize)>)
    ensures
        r matches Some(vp) ==> (spec_dec_stream_choice(s@, pos as int) matches Some(w) && w.0 == vp.0@
            && w.1 == vp.1 as int),
        r is None ==> spec_dec_stream_choice(s@, pos as int) is None,
{
    match read_opt_role(s, pos) {
        Option::None => Option::None,
        Option::Some((y0, p0)) => {
            match read_str(s, p0) {
                Option::None => Option::None,
                Option::Some((y1, p1)) => {
                    match read_opt_str(s, p1) {
                        Option::None => Option::None,
                        Option::Some((y2, p2)) => {
                            Option::Some((StreamChoice { role: y0, content: y1, finish_reason: y2 }, p2))
                        },
                    }
                },
            }
        },
    }

}

/// The encodings of a stream choice list's items.
pub open spec fn spec_enc_stream_choice_items(items: Seq<StreamChoiceView>) -> Seq<Seq<char>> {
    items.map_values(|v: StreamChoiceView| spec_enc_stream_choice(v))
}

/// A stream choice list's encoding: the count, then the items.
pub open spec fn spec_enc_stream_choice_list(items: Seq<StreamChoiceView>) -> Seq<char> {
    spec_enc_nat(items.len()) + spec_concat(spec_enc_stream_choice_items(items))
}

/// `count` items decoded one after another from `pos`.
pub open spec fn spec_dec_stream_choice_list_rec(s: Seq<char>, pos: int, count: nat) -> Option<
    (Seq<StreamChoiceView>, int),
>
    decreases count,
{
    if count == 0 {
        Option::Some((Seq::empty(), pos))
    } else {
        match spec_dec_stream_choice(s, pos) {
            Option::Some(vp) => match spec_dec_stream_choice_list_rec(s, vp.1, (count - 1) as nat) {
                Option::Some(lp) => Option::Some((seq![vp.0] + lp.0, lp.1)),
                Option::None => Option::None,
            },
            Option::None => Option::None,
        }
    }
}

/// A stream choice list decoded at `pos`.
pub open spec fn spec_dec_stream_choice_list(s: Seq<char>, pos: int) -> Option<(Seq<StreamChoiceView>, int)> {
    match spec_dec_nat(s, pos) {
        Option::Some(np) => spec_dec_stream_choice_list_rec(s, np.1, np.0),
        Option::None => Option::None,
    }
}

proof fn lemma_dec_stream_choice_list_rec_bound(s: Seq<char>, pos: int, count: nat)
    ensures
        spec_dec_stream_choice_list_rec(s, pos, count) matches Some(lp) ==> pos <= lp.1,
        spec_dec_stream_choice_list_rec(s, pos, count) matches Some(lp) ==> (count >= 1 ==> (pos < lp.1
            <= s.len() && count <= s.len() - pos)),
    decreases count,
{
    if count == 0 {
    } else {
        match spec_dec_stream_choice(s, pos) {
            Option::Some(vp) => {
                lemma_dec_stream_choice_pos(s, pos);
                lemma_dec_stream_choice_list_rec_bound(s, vp.1, (count - 1) as nat);
            },
            Option::None => {},
        }
    }
}

proof fn lemma_dec_stream_choice_list_pos(s: Seq<char>, pos: int)
    ensures
        spec_dec_stream_choice_list(s, pos) matches Some(vp) ==> pos < vp.1 <= s.len(),
{
    lemma_dec_nat_pos(s, pos, 0);
    match spec_dec_nat(s, pos) {
        Option::Some(np) => {
            lemma_dec_stream_choice_list_rec_bound(s, np.1, np.0);
            if np.0 == 0 {
            }
        },
        Option::None => {},
    }
}

proof fn lemma_dec_enc_stream_choice_list_rec(s: Seq<char>, pos: int, items: Seq<StreamChoiceView>)
    requires
        0 <= pos,
        pos + spec_concat(spec_enc_stream_choice_items(items)).len() <= s.len(),
        s.subrange(pos, pos + spec_concat(spec_enc_stream_choice_items(items)).len() as int)
            == spec_concat(spec_enc_stream_choice_items(items)),
    ensures
        spec_dec_stream_choice_list_rec(s, pos, items.len()) == Option::Some(
            (items, pos + spec_concat(spec_enc_stream_choice_items(items)).len()),
        ),
    decreases items.len(),
{
    let parts = spec_enc_stream_choice_items(items);
    if items.len() == 0 {
        assert(items =~= Seq::<StreamChoiceView>::empty());
    } else {
        let e0 = spec_enc_stream_choice(items[0]);
        let l0 = e0.len() as int;
        let whole = spec_concat(parts);
        assert(parts[0] == e0);
        assert(whole == e0 + spec_concat(parts.drop_first()));
        let rest_items = items.drop_first();
        assert(parts.drop_first() =~= spec_enc_stream_choice_items(rest_items));
        lemma_segment(s, pos, whole, 0, l0);
        assert(whole.subrange(0, l0) =~= e0);
        lemma_dec_enc_stream_choice(s, pos, items[0]);
        lemma_segment(s, pos, whole, l0, whole.len() as int);
        assert(whole.subrange(l0, whole.len() as int) =~= spec_concat(
            spec_enc_stream_choice_items(rest_items),
        ));
        lemma_dec_enc_stream_choice_list_rec(s, pos + l0, rest_items);
        assert(seq![items[0]] + rest_items =~= items);
    }
}

/// Wherever a buffer carries an encoded stream choice list,
/// decoding there yields the items back.
pub proof fn lemma_dec_enc_stream_choice_list(s: Seq<char>, pos: int, items: Seq<StreamChoiceView>)
    requires
        0 <= pos,
        pos + spec_enc_stream_choice_list(items).len() <= s.len(),
        s.subrange(pos, pos + spec_enc_stream_choice_list(items).len() as int) == spec_enc_stream_choice_list(items),
    ensures
        spec_dec_stream_choice_list(s, pos) == Option::Some((items, pos + spec_enc_stream_choice_list(items).len())),
{
    let e1 = spec_enc_nat(items.len());
    let l1 = e1.len() as int;
    let whole = spec_enc_stream_choice_list(items);
    lemma_segment(s, pos, whole, 0, l1);
    assert(whole.subrange(0, l1) =~= e1);
    lemma_dec_enc_nat(s, pos, items.len());
    lemma_segment(s, pos, whole, l1, whole.len() as int);
    assert(whole.subrange(l1, whole.len() as int) =~= spec_concat(
        spec_enc_stream_choice_items(items),
    ));
    lemma_dec_enc_stream_choice_list_rec(s, pos + l1, items);
}

/// Append `spec_enc_stream_choice_list` of the vector's views.
pub fn write_stream_choice_list(out: &mut Vec<char>, items: &Vec<StreamChoice>)
    ensures
        final(out)@ == old(out)@ + spec_enc_stream_choice_list(items@.map_values(|c: StreamChoice| c@)),
{
    let ghost views = items@.map_values(|c: StreamChoice| c@);
    let len64 = items.len() as u64;
    write_nat(out, len64);
    let ghost base = out@;
    let mut i: usize = 0;
    proof {
        assert(spec_enc_stream_choice_items(views).subrange(0, 0) =~= Seq::<Seq<char>>::empty());
        assert(base + spec_concat(Seq::<Seq<char>>::empty()) =~= base);
    }
    while i < items.len()
        invariant
            i <= items@.len(),
            views == items@.map_values(|c: StreamChoice| c@),
            out@ == base + spec_concat(spec_enc_stream_choice_items(views).subrange(0, i as int)),
        decreases items@.len() - i,
    {
        write_stream_choice(out, &items[i]);
        proof {
            let pieces = spec_enc_stream_choice_items(views).subrange(0, i as int);
            lemma_concat_push(pieces, spec_enc_stream_choice(views[i as int]));
            assert(pieces.push(spec_enc_stream_choice(views[i as int]))
                =~= spec_enc_stream_choice_items(views).subrange(0, i as int + 1));
            assert(out@ =~= base + spec_concat(
                spec_enc_stream_choice_items(views).subrange(0, i as int + 1),
            ));
        }
        i = i + 1;
    }
    proof {
        assert(spec_enc_stream_choice_items(views).subrange(0, views.len() as int)
            =~= spec_enc_stream_choice_items(views));
        assert(out@ =~= old(out)@ + spec_enc_stream_choice_list(views));
    }
}

/// Decode a stream choice list at `pos`.
pub fn read_stream_choice_list(s: &Vec<char>, pos: usize) -> (r: Option<(Vec<StreamChoice>, usize)>)
    ensures
        r matches Some(vp) ==> (spec_dec_stream_choice_list(s@, pos as int) matches Some(w) && w.0
            == vp.0@.map_values(|c: StreamChoice| c@) && w.1 == vp.1 as int),
        r is None ==> spec_dec_stream_choice_list(s@, pos as int) is None,
{
    let n = s.len();
    match read_u64(s, pos) {
        Option::None => {
            proof {
                match spec_dec_nat(s@, pos as int) {
                    Option::Some(np) => {
                        lemma_dec_nat_pos(s@, pos as int, 0);
                        lemma_dec_stream_choice_list_rec_bound(s@, np.1, np.0);
                    },
                    Option::None => {},
                }
            }
            Option::None
        },
        Option::Some((count64, p0)) => {
            proof {
                lemma_dec_nat_pos(s@, pos as int, 0);
            }
            if count64 > (n - p0) as u64 {
                proof {
                    lemma_dec_stream_choice_list_rec_bound(s@, p0 as int, count64 as nat);
                }
                return Option::None;
            }
            let count = count64 as usize;
            let mut items: Vec<StreamChoice> = Vec::new();
            let mut p: usize = p0;
            let mut i: usize = 0;
            while i < count
                invariant
                    i <= count,
                    p <= n,
                    n == s@.len(),
                    items@.len() == i,
                    spec_dec_nat(s@, pos as int) == Option::Some((count as nat, p0 as int)),
                    spec_dec_stream_choice_list_rec(s@, p0 as int, count as nat) == (match
                        spec_dec_stream_choice_list_rec(s@, p as int, (count - i) as nat) {
                        Option::Some(lp) => Option::Some(
                            (items@.map_values(|c: StreamChoice| c@) + lp.0, lp.1),
                        ),
                        Option::None => Option::None,
                    }),
                decreases count - i,
            {
                let ghost items0 = items@.map_values(|c: StreamChoice| c@);
                match read_stream_choice(s, p) {
                    Option::None => {
                        proof {
                            assert(count - i >= 1);
                            assert(spec_dec_stream_choice(s@, p as int) is None);
                            assert(spec_dec_stream_choice_list_rec(s@, p as int, (count - i) as nat)
                                is None);
                            assert(spec_dec_stream_choice_list_rec(s@, p0 as int, count as nat) is None);
                            assert(spec_dec_stream_choice_list(s@, pos as int) is None);
                        }
                        return Option::None;
                    },
                    Option::Some((m, p2)) => {
                        proof {
                            lemma_dec_stream_choice_pos(s@, p as int);
                        }
                        items.push(m);
                        proof {
                            let mv = m@;
                            assert(items@.map_values(|c: StreamChoice| c@) =~= items0.push(mv));
                            match spec_dec_stream_choice_list_rec(s@, p2 as int, (count - i - 1) as nat) {
                                Option::Some(lp) => {
                                    assert(items0 + (seq![mv] + lp.0) =~= items0.push(mv) + lp.0);
                                },
                                Option::None => {},
                            }
                        }
                        p = p2;
                    },
                }
                i = i + 1;
            }
            proof {
                assert(items@.map_values(|c: StreamChoice| c@) + Seq::<StreamChoiceView>::empty()
                    =~= items@.map_values(|c: StreamChoice| c@));
            }
            Option::Some((items, p))
        },
    }
}

/// The view of an optional string list.
pub open spec fn opt_str_list_view(o: Option<Vec<String>>) -> Option<Seq<Seq<char>>> {
    match o {
        Option::Some(vs) => Option::Some(vs@.map_values(|v: String| v@)),
        Option::None => Option::None,
    }
}

/// The view of an optional parameter block.
pub open spec fn opt_parameters_view(o: Option<CommandParameters>) -> Option<
    CommandParametersView,
> {
    match o {
        Option::Some(p) => Option::Some(p@),
        Option::None => Option::None,
    }
}

/// The view of an optional catalog.
pub open spec fn opt_commands_view(o: Option<Commands>) -> Option<CommandsView> {
    match o {
        Option::Some(c) => Option::Some(c@),
        Option::None => Option::None,
    }
}

/// An optional string list: a `'0'` tag, or `'1'` and the list.
pub open spec fn spec_enc_opt_str_list(o: Option<Seq<Seq<char>>>) -> Seq<char> {
    match o {
        Option::None => seq!['0'],
        Option::Some(v) => seq!['1'] + spec_enc_str_list(v),
    }
}

/// An optional string list decoded at `pos`.
pub open spec fn spec_dec_opt_str_list(s: Seq<char>, pos: int) -> Option<(Option<Seq<Seq<char>>>, int)> {
    if pos < 0 || pos >= s.len() {
        Option::None
    } else if s[pos] == '0' {
        Option::Some((Option::None, pos + 1))
    } else if s[pos] == '1' {
        match spec_dec_str_list(s, pos + 1) {
            Option::Some(vp) => Option::Some((Option::Some(vp.0), vp.1)),
            Option::None => Option::None,
        }
    } else {
        Option::None
    }
}

proof fn lemma_dec_opt_str_list_pos(s: Seq<char>, pos: int)
    ensures
        spec_dec_opt_str_list(s, pos) matches Some(vp) ==> pos < vp.1 <= s.len(),
{
    if 0 <= pos < s.len() && s[pos] == '1' {
        lemma_dec_str_list_pos(s, pos + 1);
    }
}

pub proof fn lemma_dec_enc_opt_str_list(s: Seq<char>, pos: int, o: Option<Seq<Seq<char>>>)
    requires
        0 <= pos,
        pos + spec_enc_opt_str_list(o).len() <= s.len(),
        s.subrange(pos, pos + spec_enc_opt_str_list(o).len() as int) == spec_enc_opt_str_list(o),
    ensures
        spec_dec_opt_str_list(s, pos) == Option::Some((o, pos + spec_enc_opt_str_list(o).len())),
{
    let whole = spec_enc_opt_str_list(o);
    assert(s[pos] == whole[0]);
    match o {
        Option::None => {},
        Option::Some(v) => {
            lemma_segment(s, pos, whole, 1, whole.len() as int);
            assert(whole.subrange(1, whole.len() as int) =~= spec_enc_str_list(v));
            lemma_dec_enc_str_list(s, pos + 1, v);
        },
    }
}

/// Append `spec_enc_opt_str_list` of the value's view.
pub fn write_opt_str_list(out: &mut Vec<char>, o: &Option<Vec<String>>)
    ensures
        final(out)@ == old(out)@ + spec_enc_opt_str_list(opt_str_list_view(*o)),
{
    match o {
        Option::None => {
            out.push('0');
            assert(out@ =~= old(out)@ + spec_enc_opt_str_list(opt_str_list_view(*o)));
        },
        Option::Some(v) => {
            out.push('1');
            write_str_list(out, v);
            assert(out@ =~= old(out)@ + spec_enc_opt_str_list(opt_str_list_view(*o)));
        },
    }
}

/// Decode an optional string list at `pos`.
pub fn read_opt_str_list(s: &Vec<char>, pos: usize) -> (r: Option<(Option<Vec<String>>, usize)>)
    ensures
        r matches Some(vp) ==> (spec_dec_opt_str_list(s@, pos as int) matches Some(w) && w.0
            == opt_str_list_view(vp.0) && w.1 == vp.1 as int),
        r is None ==> spec_dec_opt_str_list(s@, pos as int) is None,
{
    if pos >= s.len() {
        return Option::None;
    }
    let c = s[pos];
    if c == '0' {
        Option::Some((Option::None, pos + 1))
    } else if c == '1' {
        match read_str_list(s, pos + 1) {
            Option::None => Option::None,
            Option::Some((v, p)) => Option::Some((Option::Some(v), p)),
        }
    } else {
        Option::None
    }
}

/// A property's encoding: its fields in order.
pub open spec fn spec_enc_property(v: CommandPropertyView) -> Seq<char> {
    spec_enc_str(v.property_type) + spec_enc_opt_str(v.description) + spec_enc_opt_str_list(v.enum_values)
}

/// A property decoded at `pos`.
pub open spec fn spec_dec_property(s: Seq<char>, pos: int) -> Option<(CommandPropertyView, int)> {
    match spec_dec_str(s, pos) {
        Option::Some(x0) => {
        match spec_dec_opt_str(s, x0.1) {
            Option::Some(x1) => {
            match spec_dec_opt_str_list(s, x1.1) {
                Option::Some(x2) => {
                Option::Some((CommandPropertyView { property_type: x0.0, description: x1.0, enum_values: x2.0 }, x2.1))
                },
                Option::None => Option::None,
            }
            },
            Option::None => Option::None,
        }
        },
        Option::None => Option::None,
    }

}

proof fn lemma_dec_property_pos(s: Seq<char>, pos: int)
    ensures
        spec_dec_property(s, pos) matches Some(vp) ==> pos < vp.1 <= s.len(),
{
    lemma_dec_str_pos(s, pos);
    match spec_dec_str(s, pos) {
        Option::Some(x0) => {
            lemma_dec_opt_str_pos(s, x0.1);
            match spec_dec_opt_str(s, x0.1) {
                Option::Some(x1) => {
                    lemma_dec_opt_str_list_pos(s, x1.1);
                },
                Option::None => {},
            }
        },
        Option::None => {},
    }

}

pub proof fn lemma_dec_enc_property(s: Seq<char>, pos: int, v: CommandPropertyView)
    requires
        0 <= pos,
        pos + spec_enc_property(v).len() <= s.len(),
        s.subrange(pos, pos + spec_enc_property(v).len() as int) == spec_enc_property(v),
    ensures
        spec_dec_property(s, pos) == Option::Some((v, pos + spec_enc_property(v).len())),
{
    let e0 = spec_enc_str(v.property_type);
    let l0 = e0.len() as int;
    let e1 = spec_enc_opt_str(v.description);
    let l1 = e1.len() as int;
    let e2 = spec_enc_opt_str_list(v.enum_values);
    let l2 = e2.len() as int;
    let whole = spec_enc_property(v);
    lemma_segment(s, pos, whole, 0, l0);
    assert(whole.subrange(0, l0) =~= e0);
    lemma_dec_enc_str(s, pos, v.property_type);
    lemma_segment(s, pos, whole, l0, l0 + l1);
    assert(whole.subrange(l0, l0 + l1) =~= e1);
    lemma_dec_enc_opt_str(s, pos + l0, v.description);
    lemma_segment(s, pos, whole, l0 + l1, l0 + l1 + l2);
    assert(whole.subrange(l0 + l1, l0 + l1 + l2) =~= e2);
    lemma_dec_enc_opt_str_list(s, pos + l0 + l1, v.enum_values);
}

/// Append `spec_enc_property` of the value's view.
pub fn write_property(out: &mut Vec<char>, v: &CommandProperty)
    ensures
        final(out)@ == old(out)@ + spec_enc_property(v@),
{
    write_str(out, v.property_type.as_str());
    write_opt_str(out, &v.description);
    write_opt_str_list(out, &v.enum_values);
    assert(out@ =~= old(out)@ + spec_enc_property(v@));
}

/// Decode a property at `pos`.
pub fn read_property(s: &Vec<char>, pos: usize) -> (r: Option<(CommandProperty, usize)>)
    ensures
        r matches Some(vp) ==> (spec_dec_property(s@, pos as int) matches Some(w) && w.0 == vp.0@
            && w.1 == vp.1 as int),
        r is None ==> spec_dec_property(s@, pos as int) is None,
{
    match read_str(s, pos) {
        Option::None => Option::None,
        Option::Some((y0, p0)) => {
            match read_opt_str(s, p0) {
                Option::None => Option::None,
                Option::Some((y1, p1)) => {
                    match read_opt_str_list(s, p1) {
                        Option::None => Option::None,
                        Option::Some((y2, p2)) => {
                            Option::Some((CommandProperty { property_type: y0, description: y1, enum_values: y2 }, p2))
                        },
                    }
                },
            }
        },
    }

}

/// A named property's encoding: the name, then the property.
pub open spec fn spec_enc_prop_pair(v: (Seq<char>, CommandPropertyView)) -> Seq<char> {
    spec_enc_str(v.0) + spec_enc_property(v.1)
}

/// A named property decoded at `pos`.
pub open spec fn spec_dec_prop_pair(s: Seq<char>, pos: int) -> Option<
    ((Seq<char>, CommandPropertyView), int),
> {
    match spec_dec_str(s, pos) {
        Option::Some(x0) => {
            match spec_dec_property(s, x0.1) {
                Option::Some(x1) => {
                    Option::Some(((x0.0, x1.0), x1.1))
                },
                Option::None => Option::None,
            }
        },
        Option::None => Option::None,
    }
}

proof fn lemma_dec_prop_pair_pos(s: Seq<char>, pos: int)
    ensures
        spec_dec_prop_pair(s, pos) matches Some(vp) ==> pos < vp.1 <= s.len(),
{
    lemma_dec_str_pos(s, pos);
    match spec_dec_str(s, pos) {
        Option::Some(x0) => {
            lemma_dec_property_pos(s, x0.1);
        },
        Option::None => {},
    }
}

pub proof fn lemma_dec_enc_prop_pair(s: Seq<char>, pos: int, v: (Seq<char>, CommandPropertyView))
    requires
        0 <= pos,
        pos + spec_enc_prop_pair(v).len() <= s.len(),
        s.subrange(pos, pos + spec_enc_prop_pair(v).len() as int) == spec_enc_prop_pair(v),
    ensures
        spec_dec_prop_pair(s, pos) == Option::Some((v, pos + spec_enc_prop_pair(v).len())),
{
    let e0 = spec_enc_str(v.0);
    let l0 = e0.len() as int;
    let e1 = spec_enc_property(v.1);
    let l1 = e1.len() as int;
    let whole = spec_enc_prop_pair(v);
    lemma_segment(s, pos, whole, 0, l0);
    assert(whole.subrange(0, l0) =~= e0);
    lemma_dec_enc_str(s, pos, v.0);
    lemma_segment(s, pos, whole, l0, l0 + l1);
    assert(whole.subrange(l0, l0 + l1) =~= e1);
    lemma_dec_enc_property(s, pos + l0, v.1);
}

/// Append `spec_enc_prop_pair` of the pair's views.
pub fn write_prop_pair(out: &mut Vec<char>, v: &(String, CommandProperty))
    ensures
        final(out)@ == old(out)@ + spec_enc_prop_pair((v.0@, v.1@)),
{
    write_str(out, v.0.as_str());
    write_property(out, &v.1);
    assert(out@ =~= old(out)@ + spec_enc_prop_pair((v.0@, v.1@)));
}

/// Decode a named property at `pos`.
pub fn read_prop_pair(s: &Vec<char>, pos: usize) -> (r: Option<((String, CommandProperty), usize)>)
    ensures
        r matches Some(vp) ==> (spec_dec_prop_pair(s@, pos as int) matches Some(w) && w.0
            == ((vp.0).0@, (vp.0).1@) && w.1 == vp.1 as int),
        r is None ==> spec_dec_prop_pair(s@, pos as int) is None,
{
    match read_str(s, pos) {
        Option::None => Option::None,
        Option::Some((name, p0)) => match read_property(s, p0) {
            Option::None => Option::None,
            Option::Some((prop, p1)) => Option::Some(((name, prop), p1)),
        },
    }
}

/// The encodings of a named-property list's items.
pub open spec fn spec_enc_prop_pair_items(items: Seq<(Seq<char>, CommandPropertyView)>) -> Seq<Seq<char>> {
    items.map_values(|v: (Seq<char>, CommandPropertyView)| spec_enc_prop_pair(v))
}

/// A named-property list's encoding: the count, then the pairs.
pub open spec fn spec_enc_prop_pair_list(items: Seq<(Seq<char>, CommandPropertyView)>) -> Seq<char> {
    spec_enc_nat(items.len()) + spec_concat(spec_enc_prop_pair_items(items))
}

/// `count` items decoded one after another from `pos`.
pub open spec fn spec_dec_prop_pair_list_rec(s: Seq<char>, pos: int, count: nat) -> Option<
    (Seq<(Seq<char>, CommandPropertyView)>, int),
>
    decreases count,
{
    if count == 0 {
        Option::Some((Seq::empty(), pos))
    } else {
        match spec_dec_prop_pair(s, pos) {
            Option::Some(vp) => match spec_dec_prop_pair_list_rec(s, vp.1, (count - 1) as nat) {
                Option::Some(lp) => Option::Some((seq![vp.0] + lp.0, lp.1)),
                Option::None => Option::None,
            },
            Option::None => Option::None,
        }
    }
}

/// A named-property list decoded at `pos`.
pub open spec fn spec_dec_prop_pair_list(s: Seq<char>, pos: int) -> Option<(Seq<(Seq<char>, CommandPropertyView)>, int)> {
    match spec_dec_nat(s, pos) {
        Option::Some(np) => spec_dec_prop_pair_list_rec(s, np.1, np.0),
        Option::None => Option::None,
    }
}

proof fn lemma_dec_prop_pair_list_rec_bound(s: Seq<char>, pos: int, count: nat)
    ensures
        spec_dec_prop_pair_list_rec(s, pos, count) matches Some(lp) ==> pos <= lp.1,
        spec_dec_prop_pair_list_rec(s, pos, count) matches Some(lp) ==> (count >= 1 ==> (pos < lp.1
            <= s.len() && count <= s.len() - pos)),
    decreases count,
{
    if count == 0 {
    } else {
        match spec_dec_prop_pair(s, pos) {
            Option::Some(vp) => {
                lemma_dec_prop_pair_pos(s, pos);
                lemma_dec_prop_pair_list_rec_bound(s, vp.1, (count - 1) as nat);
            },
            Option::None => {},
        }
    }
}

proof fn lemma_dec_prop_pair_list_pos(s: Seq<char>, pos: int)
    ensures
        spec_dec_prop_pair_list(s, pos) matches Some(vp) ==> pos < vp.1 <= s.len(),
{
    lemma_dec_nat_pos(s, pos, 0);
    match spec_dec_nat(s, pos) {
        Option::Some(np) => {
            lemma_dec_prop_pair_list_rec_bound(s, np.1, np.0);
            if np.0 == 0 {
            }
        },
        Option::None => {},
    }
}

proof fn lemma_dec_enc_prop_pair_list_rec(s: Seq<char>, pos: int, items: Seq<(Seq<char>, CommandPropertyView)>)
    requires
        0 <= pos,
        pos + spec_concat(spec_enc_prop_pair_items(items)).len() <= s.len(),
        s.subrange(pos, pos + spec_concat(spec_enc_prop_pair_items(items)).len() as int)
            == spec_concat(spec_enc_prop_pair_items(items)),
    ensures
        spec_dec_prop_pair_list_rec(s, pos, items.len()) == Option::Some(
            (items, pos + spec_concat(spec_enc_prop_pair_items(items)).len()),
        ),
    decreases items.len(),
{
    let parts = spec_enc_prop_pair_items(items);
    if items.len() == 0 {
        assert(items =~= Seq::<(Seq<char>, CommandPropertyView)>::empty());
    } else {
        let e0 = spec_enc_prop_pair(items[0]);
        let l0 = e0.len() as int;
        let whole = spec_concat(parts);
        assert(parts[0] == e0);
        assert(whole == e0 + spec_concat(parts.drop_first()));
        let rest_items = items.drop_first();
        assert(parts.drop_first() =~= spec_enc_prop_pair_items(rest_items));
        lemma_segment(s, pos, whole, 0, l0);
        assert(whole.subrange(0, l0) =~= e0);
        lemma_dec_enc_prop_pair(s, pos, items[0]);
        lemma_segment(s, pos, whole, l0, whole.len() as int);
        assert(whole.subrange(l0, whole.len() as int) =~= spec_concat(
            spec_enc_prop_pair_items(rest_items),
        ));
        lemma_dec_enc_prop_pair_list_rec(s, pos + l0, rest_items);
        assert(seq![items[0]] + rest_items =~= items);
    }
}

/// Wherever a buffer carries an encoded named-property list,
/// decoding there yields the items back.
pub proof fn lemma_dec_enc_prop_pair_list(s: Seq<char>, pos: int, items: Seq<(Seq<char>, CommandPropertyView)>)
    requires
        0 <= pos,
        pos + spec_enc_prop_pair_list(items).len() <= s.len(),
        s.subrange(pos, pos + spec_enc_prop_pair_list(items).len() as int) == spec_enc_prop_pair_list(items),
    ensures
        spec_dec_prop_pair_list(s, pos) == Option::Some((items, pos + spec_enc_prop_pair_list(items).len())),
{
    let e1 = spec_enc_nat(items.len());
    let l1 = e1.len() as int;
    let whole = spec_enc_prop_pair_list(items);
    lemma_segment(s, pos, whole, 0, l1);
    assert(whole.subrange(0, l1) =~= e1);
    lemma_dec_enc_nat(s, pos, items.len());
    lemma_segment(s, pos, whole, l1, whole.len() as int);
    assert(whole.subrange(l1, whole.len() as int) =~= spec_concat(
        spec_enc_prop_pair_items(items),
    ));
    lemma_dec_enc_prop_pair_list_rec(s, pos + l1, items);
}

/// Append `spec_enc_prop_pair_list` of the vector's views.
pub fn write_prop_pair_list(out: &mut Vec<char>, items: &Vec<(String, CommandProperty)>)
    ensures
        final(out)@ == old(out)@ + spec_enc_prop_pair_list(items@.map_values(|p: (String, CommandProperty)| (p.0@, p.1@))),
{
    let ghost views = items@.map_values(|p: (String, CommandProperty)| (p.0@, p.1@));
    let len64 = items.len() as u64;
    write_nat(out, len64);
    let ghost base = out@;
    let mut i: usize = 0;
    proof {
        assert(spec_enc_prop_pair_items(views).subrange(0, 0) =~= Seq::<Seq<char>>::empty());
        assert(base + spec_concat(Seq::<Seq<char>>::empty()) =~= base);
    }
    while i < items.len()
        invariant
            i <= items@.len(),
            views == items@.map_values(|p: (String, CommandProperty)| (p.0@, p.1@)),
            out@ == base + spec_concat(spec_enc_prop_pair_items(views).subrange(0, i as int)),
        decreases items@.len() - i,
    {
        write_prop_pair(out, &items[i]);
        proof {
            let pieces = spec_enc_prop_pair_items(views).subrange(0, i as int);
            lemma_concat_push(pieces, spec_enc_prop_pair(views[i as int]));
            assert(pieces.push(spec_enc_prop_pair(views[i as int]))
                =~= spec_enc_prop_pair_items(views).subrange(0, i as int + 1));
            assert(out@ =~= base + spec_concat(
                spec_enc_prop_pair_items(views).subrange(0, i as int + 1),
            ));
        }
        i = i + 1;
    }
    proof {
        assert(spec_enc_prop_pair_items(views).subrange(0, views.len() as int)
            =~= spec_enc_prop_pair_items(views));
        assert(out@ =~= old(out)@ + spec_enc_prop_pair_list(views));
    }
}

/// Decode a named-property list at `pos`.
pub fn read_prop_pair_list(s: &Vec<char>, pos: usize) -> (r: Option<(Vec<(String, CommandProperty)>, usize)>)
    ensures
        r matches Some(vp) ==> (spec_dec_prop_pair_list(s@, pos as int) matches Some(w) && w.0
            == vp.0@.map_values(|p: (String, CommandProperty)| (p.0@, p.1@)) && w.1 == vp.1 as int),
        r is None ==> spec_dec_prop_pair_list(s@, pos as int) is None,
{
    let n = s.len();
    match read_u64(s, pos) {
        Option::None => {
            proof {
                match spec_dec_nat(s@, pos as int) {
                    Option::Some(np) => {
                        lemma_dec_nat_pos(s@, pos as int, 0);
                        lemma_dec_prop_pair_list_rec_bound(s@, np.1, np.0);
                    },
                    Option::None => {},
                }
            }
            Option::None
        },
        Option::Some((count64, p0)) => {
            proof {
                lemma_dec_nat_pos(s@, pos as int, 0);
            }
            if count64 > (n - p0) as u64 {
                proof {
                    lemma_dec_prop_pair_list_rec_bound(s@, p0 as int, count64 as nat);
                }
                return Option::None;
            }
            let count = count64 as usize;
            let mut items: Vec<(String, CommandProperty)> = Vec::new();
            let mut p: usize = p0;
            let mut i: usize = 0;
            while i < count
                invariant
                    i <= count,
                    p <= n,
                    n == s@.len(),
                    items@.len() == i,
                    spec_dec_nat(s@, pos as int) == Option::Some((count as nat, p0 as int)),
                    spec_dec_prop_pair_list_rec(s@, p0 as int, count as nat) == (match
                        spec_dec_prop_pair_list_rec(s@, p as int, (count - i) as nat) {
                        Option::Some(lp) => Option::Some(
                            (items@.map_values(|p: (String, CommandProperty)| (p.0@, p.1@)) + lp.0, lp.1),
                        ),
                        Option::None => Option::None,
                    }),
                decreases count - i,
            {
                let ghost items0 = items@.map_values(|p: (String, CommandProperty)| (p.0@, p.1@));
                match read_prop_pair(s, p) {
                    Option::None => {
                        proof {
                            assert(count - i >= 1);
                            assert(spec_dec_prop_pair(s@, p as int) is None);
                            assert(spec_dec_prop_pair_list_rec(s@, p as int, (count - i) as nat)
                                is None);
                            assert(spec_dec_prop_pair_list_rec(s@, p0 as int, count as nat) is None);
                            assert(spec_dec_prop_pair_list(s@, pos as int) is None);
                        }
                        return Option::None;
                    },
                    Option::Some((m, p2)) => {
                        proof {
                            lemma_dec_prop_pair_pos(s@, p as int);
                        }
                        items.push(m);
                        proof {
                            let mv = m@;
                            assert(items@.map_values(|p: (String, CommandProperty)| (p.0@, p.1@)) =~= items0.push(mv));
                            match spec_dec_prop_pair_list_rec(s@, p2 as int, (count - i - 1) as nat) {
                                Option::Some(lp) => {
                                    assert(items0 + (seq![mv] + lp.0) =~= items0.push(mv) + lp.0);
                                },
                                Option::None => {},
                            }
                        }
                        p = p2;
                    },
                }
                i = i + 1;
            }
            proof {
                assert(items@.map_values(|p: (String, CommandProperty)| (p.0@, p.1@)) + Seq::<(Seq<char>, CommandPropertyView)>::empty()
                    =~= items@.map_values(|p: (String, CommandProperty)| (p.0@, p.1@)));
            }
            Option::Some((items, p))
        },
    }
}

/// A parameter block's encoding: its fields in order.
pub open spec fn spec_enc_parameters(v: CommandParametersView) -> Seq<char> {
    spec_enc_str(v.param_type) + spec_enc_str_list(v.required) + spec_enc_prop_pair_list(v.properties)
}

/// A parameter block decoded at `pos`.
pub open spec fn spec_dec_parameters(s: Seq<char>, pos: int) -> Option<(CommandParametersView, int)> {
    match spec_dec_str(s, pos) {
        Option::Some(x0) => {
        match spec_dec_str_list(s, x0.1) {
            Option::Some(x1) => {
            match spec_dec_prop_pair_list(s, x1.1) {
                Option::Some(x2) => {
                Option::Some((CommandParametersView { param_type: x0.0, required: x1.0, properties: x2.0 }, x2.1))
                },
                Option::None => Option::None,
            }
            },
            Option::None => Option::None,
        }
        },
        Option::None => Option::None,
    }

}

proof fn lemma_dec_parameters_pos(s: Seq<char>, pos: int)
    ensures
        spec_dec_parameters(s, pos) matches Some(vp) ==> pos < vp.1 <= s.len(),
{
    lemma_dec_str_pos(s, pos);
    match spec_dec_str(s, pos) {
        Option::Some(x0) => {
            lemma_dec_str_list_pos(s, x0.1);
            match spec_dec_str_list(s, x0.1) {
                Option::Some(x1) => {
                    lemma_dec_prop_pair_list_pos(s, x1.1);
                },
                Option::None => {},
            }
        },
        Option::None => {},
    }

}

pub proof fn lemma_dec_enc_parameters(s: Seq<char>, pos: int, v: CommandParametersView)
    requires
        0 <= pos,
        pos + spec_enc_parameters(v).len() <= s.len(),
        s.subrange(pos, pos + spec_enc_parameters(v).len() as int) == spec_enc_parameters(v),
    ensures
        spec_dec_parameters(s, pos) == Option::Some((v, pos + spec_enc_parameters(v).len())),
{
    let e0 = spec_enc_str(v.param_type);
    let l0 = e0.len() as int;
    let e1 = spec_enc_str_list(v.required);
    let l1 = e1.len() as int;
    let e2 = spec_enc_prop_pair_list(v.properties);
    let l2 = e2.len() as int;
    let whole = spec_enc_parameters(v);
    lemma_segment(s, pos, whole, 0, l0);
    assert(whole.subrange(0, l0) =~= e0);
    lemma_dec_enc_str(s, pos, v.param_type);
    lemma_segment(s, pos, whole, l0, l0 + l1);
    assert(whole.subrange(l0, l0 + l1) =~= e1);
    lemma_dec_enc_str_list(s, pos + l0, v.required);
    lemma_segment(s, pos, whole, l0 + l1, l0 + l1 + l2);
    assert(whole.subrange(l0 + l1, l0 + l1 + l2) =~= e2);
    lemma_dec_enc_prop_pair_list(s, pos + l0 + l1, v.properties);
}

/// Append `spec_enc_parameters` of the value's view.
pub fn write_parameters(out: &mut Vec<char>, v: &CommandParameters)
    ensures
        final(out)@ == old(out)@ + spec_enc_parameters(v@),
{
    write_str(out, v.param_type.as_str());
    write_str_list(out, &v.required);
    write_prop_pair_list(out, &v.properties);
    assert(out@ =~= old(out)@ + spec_enc_parameters(v@));
}

/// Decode a parameter block at `pos`.
pub fn read_parameters(s: &Vec<char>, pos: usize) -> (r: Option<(CommandParameters, usize)>)
    ensures
        r matches Some(vp) ==> (spec_dec_parameters(s@, pos as int) matches Some(w) && w.0 == vp.0@
            && w.1 == vp.1 as int),
        r is None ==> spec_dec_parameters(s@, pos as int) is None,
{
    match read_str(s, pos) {
        Option::None => Option::None,
        Option::Some((y0, p0)) => {
            match read_str_list(s, p0) {
                Option::None => Option::None,
                Option::Some((y1, p1)) => {
                    match read_prop_pair_list(s, p1) {
                        Option::None => Option::None,
                        Option::Some((y2, p2)) => {
                            Option::Some((CommandParameters { param_type: y0, required: y1, properties: y2 }, p2))
                        },
                    }
                },
            }
        },
    }

}

/// An optional parameter block: a `'0'` tag, or `'1'` and the block.
pub open spec fn spec_enc_opt_parameters(o: Option<CommandParametersView>) -> Seq<char> {
    match o {
        Option::None => seq!['0'],
        Option::Some(v) => seq!['1'] + spec_enc_parameters(v),
    }
}

/// An optional parameter block decoded at `pos`.
pub open spec fn spec_dec_opt_parameters(s: Seq<char>, pos: int) -> Option<(Option<CommandParametersView>, int)> {
    if pos < 0 || pos >= s.len() {
        Option::None
    } else if s[pos] == '0' {
        Option::Some((Option::None, pos + 1))
    } else if s[pos] == '1' {
        match spec_dec_parameters(s, pos + 1) {
            Option::Some(vp) => Option::Some((Option::Some(vp.0), vp.1)),
            Option::None => Option::None,
        }
    } else {
        Option::None
    }
}

proof fn lemma_dec_opt_parameters_pos(s: Seq<char>, pos: int)
    ensures
        spec_dec_opt_parameters(s, pos) matches Some(vp) ==> pos < vp.1 <= s.len(),
{
    if 0 <= pos < s.len() && s[pos] == '1' {
        lemma_dec_parameters_pos(s, pos + 1);
    }
}

pub proof fn lemma_dec_enc_opt_parameters(s: Seq<char>, pos: int, o: Option<CommandParametersView>)
    requires
        0 <= pos,
        pos + spec_enc_opt_parameters(o).len() <= s.len(),
        s.subrange(pos, pos + spec_enc_opt_parameters(o).len() as int) == spec_enc_opt_parameters(o),
    ensures
        spec_dec_opt_parameters(s, pos) == Option::Some((o, pos + spec_enc_opt_parameters(o).len())),
{
    let whole = spec_enc_opt_parameters(o);
    assert(s[pos] == whole[0]);
    match o {
        Option::None => {},
        Option::Some(v) => {
            lemma_segment(s, pos, whole, 1, whole.len() as int);
            assert(whole.subrange(1, whole.len() as int) =~= spec_enc_parameters(v));
            lemma_dec_enc_parameters(s, pos + 1, v);
        },
    }
}

/// Append `spec_enc_opt_parameters` of the value's view.
pub fn write_opt_parameters(out: &mut Vec<char>, o: &Option<CommandParameters>)
    ensures
        final(out)@ == old(out)@ + spec_enc_opt_parameters(opt_parameters_view(*o)),
{
    match o {
        Option::None => {
            out.push('0');
            assert(out@ =~= old(out)@ + spec_enc_opt_parameters(opt_parameters_view(*o)));
        },
        Option::Some(v) => {
            out.push('1');
            write_parameters(out, v);
            assert(out@ =~= old(out)@ + spec_enc_opt_parameters(opt_parameters_view(*o)));
        },
    }
}

/// Decode an optional parameter block at `pos`.
pub fn read_opt_parameters(s: &Vec<char>, pos: usize) -> (r: Option<(Option<CommandParameters>, usize)>)
    ensures
        r matches Some(vp) ==> (spec_dec_opt_parameters(s@, pos as int) matches Some(w) && w.0
            == opt_parameters_view(vp.0) && w.1 == vp.1 as int),
        r is None ==> spec_dec_opt_parameters(s@, pos as int) is None,
{
    if pos >= s.len() {
        return Option::None;
    }
    let c = s[pos];
    if c == '0' {
        Option::Some((Option::None, pos + 1))
    } else if c == '1' {
        match read_parameters(s, pos + 1) {
            Option::None => Option::None,
            Option::Some((v, p)) => Option::Some((Option::Some(v), p)),
        }
    } else {
        Option::None
    }
}

/// A command's encoding: its fields in order.
pub open spec fn spec_enc_command(v: CommandView) -> Seq<char> {
    spec_enc_str(v.name) + spec_enc_opt_str(v.description) + spec_enc_opt_parameters(v.parameters)
}

/// A command decoded at `pos`.
pub open spec fn spec_dec_command(s: Seq<char>, pos: int) -> Option<(CommandView, int)> {
    match spec_dec_str(s, pos) {
        Option::Some(x0) => {
        match spec_dec_opt_str(s, x0.1) {
            Option::Some(x1) => {
            match spec_dec_opt_parameters(s, x1.1) {
                Option::Some(x2) => {
                Option::Some((CommandView { name: x0.0, description: x1.0, parameters: x2.0 }, x2.1))
                },
                Option::None => Option::None,
            }
            },
            Option::None => Option::None,
        }
        },
        Option::None => Option::None,
    }

}

proof fn lemma_dec_command_pos(s: Seq<char>, pos: int)
    ensures
        spec_dec_command(s, pos) matches Some(vp) ==> pos < vp.1 <= s.len(),
{
    lemma_dec_str_pos(s, pos);
    match spec_dec_str(s, pos) {
        Option::Some(x0) => {
            lemma_dec_opt_str_pos(s, x0.1);
            match spec_dec_opt_str(s, x0.1) {
                Option::Some(x1) => {
                    lemma_dec_opt_parameters_pos(s, x1.1);
                },
                Option::None => {},
            }
        },
        Option::None => {},
    }

}

pub proof fn lemma_dec_enc_command(s: Seq<char>, pos: int, v: CommandView)
    requires
        0 <= pos,
        pos + spec_enc_command(v).len() <= s.len(),
        s.subrange(pos, pos + spec_enc_command(v).len() as int) == spec_enc_command(v),
    ensures
        spec_dec_command(s, pos) == Option::Some((v, pos + spec_enc_command(v).len())),
{
    let e0 = spec_enc_str(v.name);
    let l0 = e0.len() as int;
    let e1 = spec_enc_opt_str(v.description);
    let l1 = e1.len() as int;
    let e2 = spec_enc_opt_parameters(v.parameters);
    let l2 = e2.len() as int;
    let whole = spec_enc_command(v);
    lemma_segment(s, pos, whole, 0, l0);
    assert(whole.subrange(0, l0) =~= e0);
    lemma_dec_enc_str(s, pos, v.name);
    lemma_segment(s, pos, whole, l0, l0 + l1);
    assert(whole.subrange(l0, l0 + l1) =~= e1);
    lemma_dec_enc_opt_str(s, pos + l0, v.description);
    lemma_segment(s, pos, whole, l0 + l1, l0 + l1 + l2);
    assert(whole.subrange(l0 + l1, l0 + l1 + l2) =~= e2);
    lemma_dec_enc_opt_parameters(s, pos + l0 + l1, v.parameters);
}

/// Append `spec_enc_command` of the value's view.
pub fn write_command(out: &mut Vec<char>, v: &Command)
    ensures
        final(out)@ == old(out)@ + spec_enc_command(v@),
{
    write_str(out, v.name.as_str());
    write_opt_str(out, &v.description);
    write_opt_parameters(out, &v.parameters);
    assert(out@ =~= old(out)@ + spec_enc_command(v@));
}

/// Decode a command at `pos`.
pub fn read_command(s: &Vec<char>, pos: usize) -> (r: Option<(Command, usize)>)
    ensures
        r matches Some(vp) ==> (spec_dec_command(s@, pos as int) matches Some(w) && w.0 == vp.0@
            && w.1 == vp.1 as int),
        r is None ==> spec_dec_command(s@, pos as int) is None,
{
    match read_str(s, pos) {
        Option::None => Option::None,
        Option::Some((y0, p0)) => {
            match read_opt_str(s, p0) {
                Option::None => Option::None,
                Option::Some((y1, p1)) => {
                    match read_opt_parameters(s, p1) {
                        Option::None => Option::None,
                        Option::Some((y2, p2)) => {
                            Option::Some((Command { name: y0, description: y1, parameters: y2 }, p2))
                        },
                    }
                },
            }
        },
    }

}

/// The encodings of a command list's items.
pub open spec fn spec_enc_command_items(items: Seq<CommandView>) -> Seq<Seq<char>> {
    items.map_values(|v: CommandView| spec_enc_command(v))
}

/// A command list's encoding: the count, then the items.
pub open spec fn spec_enc_command_list(items: Seq<CommandView>) -> Seq<char> {
    spec_enc_nat(items.len()) + spec_concat(spec_enc_command_items(items))
}

/// `count` items decoded one after another from `pos`.
pub open spec fn spec_dec_command_list_rec(s: Seq<char>, pos: int, count: nat) -> Option<
    (Seq<CommandView>, int),
>
    decreases count,
{
    if count == 0 {
        Option::Some((Seq::empty(), pos))
    } else {
        match spec_dec_command(s, pos) {
            Option::Some(vp) => match spec_dec_command_list_rec(s, vp.1, (count - 1) as nat) {
                Option::Some(lp) => Option::Some((seq![vp.0] + lp.0, lp.1)),
                Option::None => Option::None,
            },
            Option::None => Option::None,
        }
    }
}

/// A command list decoded at `pos`.
pub open spec fn spec_dec_command_list(s: Seq<char>, pos: int) -> Option<(Seq<CommandView>, int)> {
    match spec_dec_nat(s, pos) {
        Option::Some(np) => spec_dec_command_list_rec(s, np.1, np.0),
        Option::None => Option::None,
    }
}

proof fn lemma_dec_command_list_rec_bound(s: Seq<char>, pos: int, count: nat)
    ensures
        spec_dec_command_list_rec(s, pos, count) matches Some(lp) ==> pos <= lp.1,
        spec_dec_command_list_rec(s, pos, count) matches Some(lp) ==> (count >= 1 ==> (pos < lp.1
            <= s.len() && count <= s.len() - pos)),
    decreases count,
{
    if count == 0 {
    } else {
        match spec_dec_command(s, pos) {
            Option::Some(vp) => {
                lemma_dec_command_pos(s, pos);
                lemma_dec_command_list_rec_bound(s, vp.1, (count - 1) as nat);
            },
            Option::None => {},
        }
    }
}

proof fn lemma_dec_command_list_pos(s: Seq<char>, pos: int)
    ensures
        spec_dec_command_list(s, pos) matches Some(vp) ==> pos < vp.1 <= s.len(),
{
    lemma_dec_nat_pos(s, pos, 0);
    match spec_dec_nat(s, pos) {
        Option::Some(np) => {
            lemma_dec_command_list_rec_bound(s, np.1, np.0);
            if np.0 == 0 {
            }
        },
        Option::None => {},
    }
}

proof fn lemma_dec_enc_command_list_rec(s: Seq<char>, pos: int, items: Seq<CommandView>)
    requires
        0 <= pos,
        pos + spec_concat(spec_enc_command_items(items)).len() <= s.len(),
        s.subrange(pos, pos + spec_concat(spec_enc_command_items(items)).len() as int)
            == spec_concat(spec_enc_command_items(items)),
    ensures
        spec_dec_command_list_rec(s, pos, items.len()) == Option::Some(
            (items, pos + spec_concat(spec_enc_command_items(items)).len()),
        ),
    decreases items.len(),
{
    let parts = spec_enc_command_items(items);
    if items.len() == 0 {
        assert(items =~= Seq::<CommandView>::empty());
    } else {
        let e0 = spec_enc_command(items[0]);
        let l0 = e0.len() as int;
        let whole = spec_concat(parts);
        assert(parts[0] == e0);
        assert(whole == e0 + spec_concat(parts.drop_first()));
        let rest_items = items.drop_first();
        assert(parts.drop_first() =~= spec_enc_command_items(rest_items));
        lemma_segment(s, pos, whole, 0, l0);
        assert(whole.subrange(0, l0) =~= e0);
        lemma_dec_enc_command(s, pos, items[0]);
        lemma_segment(s, pos, whole, l0, whole.len() as int);
        assert(whole.subrange(l0, whole.len() as int) =~= spec_concat(
            spec_enc_command_items(rest_items),
        ));
        lemma_dec_enc_command_list_rec(s, pos + l0, rest_items);
        assert(seq![items[0]] + rest_items =~= items);
    }
}

/// Wherever a buffer carries an encoded command list,
/// decoding there yields the items back.
pub proof fn lemma_dec_enc_command_list(s: Seq<char>, pos: int, items: Seq<CommandView>)
    requires
        0 <= pos,
        pos + spec_enc_command_list(items).len() <= s.len(),
        s.subrange(pos, pos + spec_enc_command_list(items).len() as int) == spec_enc_command_list(items),
    ensures
        spec_dec_command_list(s, pos) == Option::Some((items, pos + spec_enc_command_list(items).len())),
{
    let e1 = spec_enc_nat(items.len());
    let l1 = e1.len() as int;
    let whole = spec_enc_command_list(items);
    lemma_segment(s, pos, whole, 0, l1);
    assert(whole.subrange(0, l1) =~= e1);
    lemma_dec_enc_nat(s, pos, items.len());
    lemma_segment(s, pos, whole, l1, whole.len() as int);
    assert(whole.subrange(l1, whole.len() as int) =~= spec_concat(
        spec_enc_command_items(items),
    ));
    lemma_dec_enc_command_list_rec(s, pos + l1, items);
}

/// Append `spec_enc_command_list` of the vector's views.
pub fn write_command_list(out: &mut Vec<char>, items: &Vec<Command>)
    ensures
        final(out)@ == old(out)@ + spec_enc_command_list(items@.map_values(|c: Command| c@)),
{
    let ghost views = items@.map_values(|c: Command| c@);
    let len64 = items.len() as u64;
    write_nat(out, len64);
    let ghost base = out@;
    let mut i: usize = 0;
    proof {
        assert(spec_enc_command_items(views).subrange(0, 0) =~= Seq::<Seq<char>>::empty());
        assert(base + spec_concat(Seq::<Seq<char>>::empty()) =~= base);
    }
    while i < items.len()
        invariant
            i <= items@.len(),
            views == items@.map_values(|c: Command| c@),
            out@ == base + spec_concat(spec_enc_command_items(views).subrange(0, i as int)),
        decreases items@.len() - i,
    {
        write_command(out, &items[i]);
        proof {
            let pieces = spec_enc_command_items(views).subrange(0, i as int);
            lemma_concat_push(pieces, spec_enc_command(views[i as int]));
            assert(pieces.push(spec_enc_command(views[i as int]))
                =~= spec_enc_command_items(views).subrange(0, i as int + 1));
            assert(out@ =~= base + spec_concat(
                spec_enc_command_items(views).subrange(0, i as int + 1),
            ));
        }
        i = i + 1;
    }
    proof {
        assert(spec_enc_command_items(views).subrange(0, views.len() as int)
            =~= spec_enc_command_items(views));
        assert(out@ =~= old(out)@ + spec_enc_command_list(views));
    }
}

/// Decode a command list at `pos`.
pub fn read_command_list(s: &Vec<char>, pos: usize) -> (r: Option<(Vec<Command>, usize)>)
    ensures
        r matches Some(vp) ==> (spec_dec_command_list(s@, pos as int) matches Some(w) && w.0
            == vp.0@.map_values(|c: Command| c@) && w.1 == vp.1 as int),
        r is None ==> spec_dec_command_list(s@, pos as int) is None,
{
    let n = s.len();
    match read_u64(s, pos) {
        Option::None => {
            proof {
                match spec_dec_nat(s@, pos as int) {
                    Option::Some(np) => {
                        lemma_dec_nat_pos(s@, pos as int, 0);
                        lemma_dec_command_list_rec_bound(s@, np.1, np.0);
                    },
                    Option::None => {},
                }
            }
            Option::None
        },
        Option::Some((count64, p0)) => {
            proof {
                lemma_dec_nat_pos(s@, pos as int, 0);
            }
            if count64 > (n - p0) as u64 {
                proof {
                    lemma_dec_command_list_rec_bound(s@, p0 as int, count64 as nat);
                }
                return Option::None;
            }
            let count = count64 as usize;
            let mut items: Vec<Command> = Vec::new();
            let mut p: usize = p0;
            let mut i: usize = 0;
            while i < count
                invariant
                    i <= count,
                    p <= n,
                    n == s@.len(),
                    items@.len() == i,
                    spec_dec_nat(s@, pos as int) == Option::Some((count as nat, p0 as int)),
                    spec_dec_command_list_rec(s@, p0 as int, count as nat) == (match
                        spec_dec_command_list_rec(s@, p as int, (count - i) as nat) {
                        Option::Some(lp) => Option::Some(
                            (items@.map_values(|c: Command| c@) + lp.0, lp.1),
                        ),
                        Option::None => Option::None,
                    }),
                decreases count - i,
            {
                let ghost items0 = items@.map_values(|c: Command| c@);
                match read_command(s, p) {
                    Option::None => {
                        proof {
                            assert(count - i >= 1);
                            assert(spec_dec_command(s@, p as int) is None);
                            assert(spec_dec_command_list_rec(s@, p as int, (count - i) as nat)
                                is None);
                            assert(spec_dec_command_list_rec(s@, p0 as int, count as nat) is None);
                            assert(spec_dec_command_list(s@, pos as int) is None);
                        }
                        return Option::None;
                    },
                    Option::Some((m, p2)) => {
                        proof {
                            lemma_dec_command_pos(s@, p as int);
                        }
                        items.push(m);
                        proof {
                            let mv = m@;
                            assert(items@.map_values(|c: Command| c@) =~= items0.push(mv));
                            match spec_dec_command_list_rec(s@, p2 as int, (count - i - 1) as nat) {
                                Option::Some(lp) => {
                                    assert(items0 + (seq![mv] + lp.0) =~= items0.push(mv) + lp.0);
                                },
                                Option::None => {},
                            }
                        }
                        p = p2;
                    },
                }
                i = i + 1;
            }
            proof {
                assert(items@.map_values(|c: Command| c@) + Seq::<CommandView>::empty()
                    =~= items@.map_values(|c: Command| c@));
            }
            Option::Some((items, p))
        },
    }
}

/// A catalog's encoding: its command list.
pub open spec fn spec_enc_commands(v: CommandsView) -> Seq<char> {
    spec_enc_command_list(v.commands)
}

/// A catalog decoded at `pos`.
pub open spec fn spec_dec_commands(s: Seq<char>, pos: int) -> Option<(CommandsView, int)> {
    match spec_dec_command_list(s, pos) {
        Option::Some(x0) => {
        Option::Some((CommandsView { commands: x0.0 }, x0.1))
        },
        Option::None => Option::None,
    }

}

proof fn lemma_dec_commands_pos(s: Seq<char>, pos: int)
    ensures
        spec_dec_commands(s, pos) matches Some(vp) ==> pos < vp.1 <= s.len(),
{
    lemma_dec_command_list_pos(s, pos);

}

pub proof fn lemma_dec_enc_commands(s: Seq<char>, pos: int, v: CommandsView)
    requires
        0 <= pos,
        pos + spec_enc_commands(v).len() <= s.len(),
        s.subrange(pos, pos + spec_enc_commands(v).len() as int) == spec_enc_commands(v),
    ensures
        spec_dec_commands(s, pos) == Option::Some((v, pos + spec_enc_commands(v).len())),
{
    let e0 = spec_enc_command_list(v.commands);
    let l0 = e0.len() as int;
    let whole = spec_enc_commands(v);
    lemma_segment(s, pos, whole, 0, l0);
    assert(whole.subrange(0, l0) =~= e0);
    lemma_dec_enc_command_list(s, pos, v.commands);
}

/// Append `spec_enc_commands` of the value's view.
pub fn write_commands(out: &mut Vec<char>, v: &Commands)
    ensures
        final(out)@ == old(out)@ + spec_enc_commands(v@),
{
    write_command_list(out, &v.commands);
    assert(out@ =~= old(out)@ + spec_enc_commands(v@));
}

/// Decode a catalog at `pos`.
pub fn read_commands(s: &Vec<char>, pos: usize) -> (r: Option<(Commands, usize)>)
    ensures
        r matches Some(vp) ==> (spec_dec_commands(s@, pos as int) matches Some(w) && w.0 == vp.0@
            && w.1 == vp.1 as int),
        r is None ==> spec_dec_commands(s@, pos as int) is None,
{
    match read_command_list(s, pos) {
        Option::None => Option::None,
        Option::Some((y0, p0)) => {
            Option::Some((Commands { commands: y0 }, p0))
        },
    }

}

/// An optional catalog: a `'0'` tag, or `'1'` and the catalog.
pub open spec fn spec_enc_opt_commands(o: Option<CommandsView>) -> Seq<char> {
    match o {
        Option::None => seq!['0'],
        Option::Some(v) => seq!['1'] + spec_enc_commands(v),
    }
}

/// An optional catalog decoded at `pos`.
pub open spec fn spec_dec_opt_commands(s: Seq<char>, pos: int) -> Option<(Option<CommandsView>, int)> {
    if pos < 0 || pos >= s.len() {
        Option::None
    } else if s[pos] == '0' {
        Option::Some((Option::None, pos + 1))
    } else if s[pos] == '1' {
        match spec_dec_commands(s, pos + 1) {
            Option::Some(vp) => Option::Some((Option::Some(vp.0), vp.1)),
            Option::None => Option::None,
        }
    } else {
        Option::None
    }
}

proof fn lemma_dec_opt_commands_pos(s: Seq<char>, pos: int)
    ensures
        spec_dec_opt_commands(s, pos) matches Some(vp) ==> pos < vp.1 <= s.len(),
{
    if 0 <= pos < s.len() && s[pos] == '1' {
        lemma_dec_commands_pos(s, pos + 1);
    }
}

pub proof fn lemma_dec_enc_opt_commands(s: Seq<char>, pos: int, o: Option<CommandsView>)
    requires
        0 <= pos,
        pos + spec_enc_opt_commands(o).len() <= s.len(),
        s.subrange(pos, pos + spec_enc_opt_commands(o).len() as int) == spec_enc_opt_commands(o),
    ensures
        spec_dec_opt_commands(s, pos) == Option::Some((o, pos + spec_enc_opt_commands(o).len())),
{
    let whole = spec_enc_opt_commands(o);
    assert(s[pos] == whole[0]);
    match o {
        Option::None => {},
        Option::Some(v) => {
            lemma_segment(s, pos, whole, 1, whole.len() as int);
            assert(whole.subrange(1, whole.len() as int) =~= spec_enc_commands(v));
            lemma_dec_enc_commands(s, pos + 1, v);
        },
    }
}

/// Append `spec_enc_opt_commands` of the value's view.
pub fn write_opt_commands(out: &mut Vec<char>, o: &Option<Commands>)
    ensures
        final(out)@ == old(out)@ + spec_enc_opt_commands(opt_commands_view(*o)),
{
    match o {
        Option::None => {
            out.push('0');
            assert(out@ =~= old(out)@ + spec_enc_opt_commands(opt_commands_view(*o)));
        },
        Option::Some(v) => {
            out.push('1');
            write_commands(out, v);
            assert(out@ =~= old(out)@ + spec_enc_opt_commands(opt_commands_view(*o)));
        },
    }
}

/// Decode an optional catalog at `pos`.
pub fn read_opt_commands(s: &Vec<char>, pos: usize) -> (r: Option<(Option<Commands>, usize)>)
    ensures
        r matches Some(vp) ==> (spec_dec_opt_commands(s@, pos as int) matches Some(w) && w.0
            == opt_commands_view(vp.0) && w.1 == vp.1 as int),
        r is None ==> spec_dec_opt_commands(s@, pos as int) is None,
{
    if pos >= s.len() {
        return Option::None;
    }
    let c = s[pos];
    if c == '0' {
        Option::Some((Option::None, pos + 1))
    } else if c == '1' {
        match read_commands(s, pos + 1) {
            Option::None => Option::None,
            Option::Some((v, p)) => Option::Some((Option::Some(v), p)),
        }
    } else {
        Option::None
    }
}

/// A model descriptor's encoding: its fields in order.
pub open spec fn spec_enc_model(v: ModelView) -> Seq<char> {
    spec_enc_str(v.name) + spec_enc_str(v.endpoint) + spec_enc_u32(v.token_limit)
}

/// A model descriptor decoded at `pos`.
pub open spec fn spec_dec_model(s: Seq<char>, pos: int) -> Option<(ModelView, int)> {
    match spec_dec_str(s, pos) {
        Option::Some(x0) => {
        match spec_dec_str(s, x0.1) {
            Option::Some(x1) => {
            match spec_dec_u32(s, x1.1) {
                Option::Some(x2) => {
                Option::Some((ModelView { name: x0.0, endpoint: x1.0, token_limit: x2.0 }, x2.1))
                },
                Option::None => Option::None,
            }
            },
            Option::None => Option::None,
        }
        },
        Option::None => Option::None,
    }

}

proof fn lemma_dec_model_pos(s: Seq<char>, pos: int)
    ensures
        spec_dec_model(s, pos) matches Some(vp) ==> pos < vp.1 <= s.len(),
{
    lemma_dec_str_pos(s, pos);
    match spec_dec_str(s, pos) {
        Option::Some(x0) => {
            lemma_dec_str_pos(s, x0.1);
            match spec_dec_str(s, x0.1) {
                Option::Some(x1) => {
                    lemma_dec_u32_pos(s, x1.1);
                },
                Option::None => {},
            }
        },
        Option::None => {},
    }

}

pub proof fn lemma_dec_enc_model(s: Seq<char>, pos: int, v: ModelView)
    requires
        0 <= pos,
        pos + spec_enc_model(v).len() <= s.len(),
        s.subrange(pos, pos + spec_enc_model(v).len() as int) == spec_enc_model(v),
    ensures
        spec_dec_model(s, pos) == Option::Some((v, pos + spec_enc_model(v).len())),
{
    let e0 = spec_enc_str(v.name);
    let l0 = e0.len() as int;
    let e1 = spec_enc_str(v.endpoint);
    let l1 = e1.len() as int;
    let e2 = spec_enc_u32(v.token_limit);
    let l2 = e2.len() as int;
    let whole = spec_enc_model(v);
    lemma_segment(s, pos, whole, 0, l0);
    assert(whole.subrange(0, l0) =~= e0);
    lemma_dec_enc_str(s, pos, v.name);
    lemma_segment(s, pos, whole, l0, l0 + l1);
    assert(whole.subrange(l0, l0 + l1) =~= e1);
    lemma_dec_enc_str(s, pos + l0, v.endpoint);
    lemma_segment(s, pos, whole, l0 + l1, l0 + l1 + l2);
    assert(whole.subrange(l0 + l1, l0 + l1 + l2) =~= e2);
    lemma_dec_enc_u32(s, pos + l0 + l1, v.token_limit);
}

/// Append `spec_enc_model` of the value's view.
pub fn write_model(out: &mut Vec<char>, v: &Model)
    ensures
        final(out)@ == old(out)@ + spec_enc_model(v@),
{
    write_str(out, v.name.as_str());
    write_str(out, v.endpoint.as_str());
    write_u32(out, v.token_limit);
    assert(out@ =~= old(out)@ + spec_enc_model(v@));
}

/// Decode a model descriptor at `pos`.
pub fn read_model(s: &Vec<char>, pos: usize) -> (r: Option<(Model, usize)>)
    ensures
        r matches Some(vp) ==> (spec_dec_model(s@, pos as int) matches Some(w) && w.0 == vp.0@
            && w.1 == vp.1 as int),
        r is None ==> spec_dec_model(s@, pos as int) is None,
{
    match read_str(s, pos) {
        Option::None => Option::None,
        Option::Some((y0, p0)) => {
            match read_str(s, p0) {
                Option::None => Option::None,
                Option::Some((y1, p1)) => {
                    match read_u32(s, p1) {
                        Option::None => Option::None,
                        Option::Some((y2, p2)) => {
                            Option::Some((Model { name: y0, endpoint: y1, token_limit: y2 }, p2))
                        },
                    }
                },
            }
        },
    }

}

/// A request's encoding: model, messages, catalog, streaming flag.
pub open spec fn spec_enc_request(v: ChatRequestView) -> Seq<char> {
    spec_enc_str(v.model) + spec_enc_message_list(v.messages) + spec_enc_opt_commands(v.functions) + spec_enc_bool(v.stream)
}

/// A request decoded at `pos`.
pub open spec fn spec_dec_request(s: Seq<char>, pos: int) -> Option<(ChatRequestView, int)> {
    match spec_dec_str(s, pos) {
        Option::Some(x0) => {
        match spec_dec_message_list(s, x0.1) {
            Option::Some(x1) => {
            match spec_dec_opt_commands(s, x1.1) {
                Option::Some(x2) => {
                match spec_dec_bool(s, x2.1) {
                    Option::Some(x3) => {
                    Option::Some((ChatRequestView { model: x0.0, messages: x1.0, functions: x2.0, stream: x3.0 }, x3.1))
                    },
                    Option::None => Option::None,
                }
                },
                Option::None => Option::None,
            }
            },
            Option::None => Option::None,
        }
        },
        Option::None => Option::None,
    }

}

proof fn lemma_dec_request_pos(s: Seq<char>, pos: int)
    ensures
        spec_dec_request(s, pos) matches Some(vp) ==> pos < vp.1 <= s.len(),
{
    lemma_dec_str_pos(s, pos);
    match spec_dec_str(s, pos) {
        Option::Some(x0) => {
            lemma_dec_message_list_pos(s, x0.1);
            match spec_dec_message_list(s, x0.1) {
                Option::Some(x1) => {
                    lemma_dec_opt_commands_pos(s, x1.1);
                    match spec_dec_opt_commands(s, x1.1) {
                        Option::Some(x2) => {
                            lemma_dec_bool_pos(s, x2.1);
                        },
                        Option::None => {},
                    }
                },
                Option::None => {},
            }
        },
        Option::None => {},
    }

}

pub proof fn lemma_dec_enc_request(s: Seq<char>, pos: int, v: ChatRequestView)
    requires
        0 <= pos,
        pos + spec_enc_request(v).len() <= s.len(),
        s.subrange(pos, pos + spec_enc_request(v).len() as int) == spec_enc_request(v),
    ensures
        spec_dec_request(s, pos) == Option::Some((v, pos + spec_enc_request(v).len())),
{
    let e0 = spec_enc_str(v.model);
    let l0 = e0.len() as int;
    let e1 = spec_enc_message_list(v.messages);
    let l1 = e1.len() as int;
    let e2 = spec_enc_opt_commands(v.functions);
    let l2 = e2.len() as int;
    let e3 = spec_enc_bool(v.stream);
    let l3 = e3.len() as int;
    let whole = spec_enc_request(v);
    lemma_segment(s, pos, whole, 0, l0);
    assert(whole.subrange(0, l0) =~= e0);
    lemma_dec_enc_str(s, pos, v.model);
    lemma_segment(s, pos, whole, l0, l0 + l1);
    assert(whole.subrange(l0, l0 + l1) =~= e1);
    lemma_dec_enc_message_list(s, pos + l0, v.messages);
    lemma_segment(s, pos, whole, l0 + l1, l0 + l1 + l2);
    assert(whole.subrange(l0 + l1, l0 + l1 + l2) =~= e2);
    lemma_dec_enc_opt_commands(s, pos + l0 + l1, v.functions);
    lemma_segment(s, pos, whole, l0 + l1 + l2, l0 + l1 + l2 + l3);
    assert(whole.subrange(l0 + l1 + l2, l0 + l1 + l2 + l3) =~= e3);
    lemma_dec_enc_bool(s, pos + l0 + l1 + l2, v.stream);
}

/// Append `spec_enc_request` of the value's view.
pub fn write_request(out: &mut Vec<char>, v: &ChatRequest)
    ensures
        final(out)@ == old(out)@ + spec_enc_request(v@),
{
    write_str(out, v.model.as_str());
    write_message_list(out, &v.messages);
    write_opt_commands(out, &v.functions);
    write_bool(out, v.stream);
    assert(out@ =~= old(out)@ + spec_enc_request(v@));
}

/// Decode a request at `pos`.
pub fn read_request(s: &Vec<char>, pos: usize) -> (r: Option<(ChatRequest, usize)>)
    ensures
        r matches Some(vp) ==> (spec_dec_request(s@, pos as int) matches Some(w) && w.0 == vp.0@
            && w.1 == vp.1 as int),
        r is None ==> spec_dec_request(s@, pos as int) is None,
{
    match read_str(s, pos) {
        Option::None => Option::None,
        Option::Some((y0, p0)) => {
            match read_message_list(s, p0) {
                Option::None => Option::None,
                Option::Some((y1, p1)) => {
                    match read_opt_commands(s, p1) {
                        Option::None => Option::None,
                        Option::Some((y2, p2)) => {
                            match read_bool(s, p2) {
                                Option::None => Option::None,
                                Option::Some((y3, p3)) => {
                                    Option::Some((ChatRequest { model: y0, messages: y1, functions: y2, stream: y3 }, p3))
                                },
                            }
                        },
                    }
                },
            }
        },
    }

}

/// A complete reply's encoding: its choices.
pub open spec fn spec_enc_response(v: ChatResponseView) -> Seq<char> {
    spec_enc_chat_choice_list(v.choices)
}

/// A complete reply decoded at `pos`.
pub open spec fn spec_dec_response(s: Seq<char>, pos: int) -> Option<(ChatResponseView, int)> {
    match spec_dec_chat_choice_list(s, pos) {
        Option::Some(x0) => {
        Option::Some((ChatResponseView { choices: x0.0 }, x0.1))
        },
        Option::None => Option::None,
    }

}

proof fn lemma_dec_response_pos(s: Seq<char>, pos: int)
    ensures
        spec_dec_response(s, pos) matches Some(vp) ==> pos < vp.1 <= s.len(),
{
    lemma_dec_chat_choice_list_pos(s, pos);

}

pub proof fn lemma_dec_enc_response(s: Seq<char>, pos: int, v: ChatResponseView)
    requires
        0 <= pos,
        pos + spec_enc_response(v).len() <= s.len(),
        s.subrange(pos, pos + spec_enc_response(v).len() as int) == spec_enc_response(v),
    ensures
        spec_dec_response(s, pos) == Option::Some((v, pos + spec_enc_response(v).len())),
{
    let e0 = spec_enc_chat_choice_list(v.choices);
    let l0 = e0.len() as int;
    let whole = spec_enc_response(v);
    lemma_segment(s, pos, whole, 0, l0);
    assert(whole.subrange(0, l0) =~= e0);
    lemma_dec_enc_chat_choice_list(s, pos, v.choices);
}

/// Append `spec_enc_response` of the value's view.
pub fn write_response(out: &mut Vec<char>, v: &ChatResponse)
    ensures
        final(out)@ == old(out)@ + spec_enc_response(v@),
{
    write_chat_choice_list(out, &v.choices);
    assert(out@ =~= old(out)@ + spec_enc_response(v@));
}

/// Decode a complete reply at `pos`.
pub fn read_response(s: &Vec<char>, pos: usize) -> (r: Option<(ChatResponse, usize)>)
    ensures
        r matches Some(vp) ==> (spec_dec_response(s@, pos as int) matches Some(w) && w.0 == vp.0@
            && w.1 == vp.1 as int),
        r is None ==> spec_dec_response(s@, pos as int) is None,
{
    match read_chat_choice_list(s, pos) {
        Option::None => Option::None,
        Option::Some((y0, p0)) => {
            Option::Some((ChatResponse { choices: y0 }, p0))
        },
    }

}

/// A streamed reply's encoding: its choices, then its fold state.
pub open spec fn spec_enc_streamed(v: StreamedResponseView) -> Seq<char> {
    spec_enc_stream_choice_list(v.choices) + spec_enc_state(v.state)
}

/// A streamed reply decoded at `pos`.
pub open spec fn spec_dec_streamed(s: Seq<char>, pos: int) -> Option<(StreamedResponseView, int)> {
    match spec_dec_stream_choice_list(s, pos) {
        Option::Some(x0) => {
        match spec_dec_state(s, x0.1) {
            Option::Some(x1) => {
            Option::Some((StreamedResponseView { choices: x0.0, state: x1.0 }, x1.1))
            },
            Option::None => Option::None,
        }
        },
        Option::None => Option::None,
    }

}

proof fn lemma_dec_streamed_pos(s: Seq<char>, pos: int)
    ensures
        spec_dec_streamed(s, pos) matches Some(vp) ==> pos < vp.1 <= s.len(),
{
    lemma_dec_stream_choice_list_pos(s, pos);
    match spec_dec_stream_choice_list(s, pos) {
        Option::Some(x0) => {
            lemma_dec_state_pos(s, x0.1);
        },
        Option::None => {},
    }

}

pub proof fn lemma_dec_enc_streamed(s: Seq<char>, pos: int, v: StreamedResponseView)
    requires
        0 <= pos,
        pos + spec_enc_streamed(v).len() <= s.len(),
        s.subrange(pos, pos + spec_enc_streamed(v).len() as int) == spec_enc_streamed(v),
    ensures
        spec_dec_streamed(s, pos) == Option::Some((v, pos + spec_enc_streamed(v).len())),
{
    let e0 = spec_enc_stream_choice_list(v.choices);
    let l0 = e0.len() as int;
    let e1 = spec_enc_state(v.state);
    let l1 = e1.len() as int;
    let whole = spec_enc_streamed(v);
    lemma_segment(s, pos, whole, 0, l0);
    assert(whole.subrange(0, l0) =~= e0);
    lemma_dec_enc_stream_choice_list(s, pos, v.choices);
    lemma_segment(s, pos, whole, l0, l0 + l1);
    assert(whole.subrange(l0, l0 + l1) =~= e1);
    lemma_dec_enc_state(s, pos + l0, v.state);
}

/// Append `spec_enc_streamed` of the value's view.
pub fn write_streamed(out: &mut Vec<char>, v: &StreamedResponse)
    ensures
        final(out)@ == old(out)@ + spec_enc_streamed(v@),
{
    write_stream_choice_list(out, &v.choices);
    write_state(out, v.state);
    assert(out@ =~= old(out)@ + spec_enc_streamed(v@));
}

/// Decode a streamed reply at `pos`.
pub fn read_streamed(s: &Vec<char>, pos: usize) -> (r: Option<(StreamedResponse, usize)>)
    ensures
        r matches Some(vp) ==> (spec_dec_streamed(s@, pos as int) matches Some(w) && w.0 == vp.0@
            && w.1 == vp.1 as int),
        r is None ==> spec_dec_streamed(s@, pos as int) is None,
{
    match read_stream_choice_list(s, pos) {
        Option::None => Option::None,
        Option::Some((y0, p0)) => {
            match read_state(s, p0) {
                Option::None => Option::None,
                Option::Some((y1, p1)) => {
                    Option::Some((StreamedResponse { choices: y0, state: y1 }, p1))
                },
            }
        },
    }

}

/// One logged transaction: a tag for its variant, then the payload.
pub open spec fn spec_enc_transaction(t: ChatTransactionView) -> Seq<char> {
    match t {
        ChatTransactionView::Request(r) => seq!['q'] + spec_enc_request(r),
        ChatTransactionView::Response(r) => seq!['r'] + spec_enc_response(r),
        ChatTransactionView::StreamResponse(sr) => seq!['t'] + spec_enc_streamed(sr),
    }
}

/// A transaction decoded at `pos`.
pub open spec fn spec_dec_transaction(s: Seq<char>, pos: int) -> Option<
    (ChatTransactionView, int),
> {
    if pos < 0 || pos >= s.len() {
        Option::None
    } else if s[pos] == 'q' {
        match spec_dec_request(s, pos + 1) {
            Option::Some(vp) => Option::Some((ChatTransactionView::Request(vp.0), vp.1)),
            Option::None => Option::None,
        }
    } else if s[pos] == 'r' {
        match spec_dec_response(s, pos + 1) {
            Option::Some(vp) => Option::Some((ChatTransactionView::Response(vp.0), vp.1)),
            Option::None => Option::None,
        }
    } else if s[pos] == 't' {
        match spec_dec_streamed(s, pos + 1) {
            Option::Some(vp) => Option::Some((ChatTransactionView::StreamResponse(vp.0), vp.1)),
            Option::None => Option::None,
        }
    } else {
        Option::None
    }
}

proof fn lemma_dec_transaction_pos(s: Seq<char>, pos: int)
    ensures
        spec_dec_transaction(s, pos) matches Some(vp) ==> pos < vp.1 <= s.len(),
{
    if 0 <= pos < s.len() {
        lemma_dec_request_pos(s, pos + 1);
        lemma_dec_response_pos(s, pos + 1);
        lemma_dec_streamed_pos(s, pos + 1);
    }
}

pub proof fn lemma_dec_enc_transaction(s: Seq<char>, pos: int, t: ChatTransactionView)
    requires
        0 <= pos,
        pos + spec_enc_transaction(t).len() <= s.len(),
        s.subrange(pos, pos + spec_enc_transaction(t).len() as int) == spec_enc_transaction(t),
    ensures
        spec_dec_transaction(s, pos) == Option::Some((t, pos + spec_enc_transaction(t).len())),
{
    let whole = spec_enc_transaction(t);
    assert(s[pos] == whole[0]);
    match t {
        ChatTransactionView::Request(r) => {
            lemma_segment(s, pos, whole, 1, whole.len() as int);
            assert(whole.subrange(1, whole.len() as int) =~= spec_enc_request(r));
            lemma_dec_enc_request(s, pos + 1, r);
        },
        ChatTransactionView::Response(r) => {
            lemma_segment(s, pos, whole, 1, whole.len() as int);
            assert(whole.subrange(1, whole.len() as int) =~= spec_enc_response(r));
            lemma_dec_enc_response(s, pos + 1, r);
        },
        ChatTransactionView::StreamResponse(sr) => {
            lemma_segment(s, pos, whole, 1, whole.len() as int);
            assert(whole.subrange(1, whole.len() as int) =~= spec_enc_streamed(sr));
            lemma_dec_enc_streamed(s, pos + 1, sr);
        },
    }
}

/// Append `spec_enc_transaction` of the transaction's view.
pub fn write_transaction(out: &mut Vec<char>, t: &ChatTransaction)
    ensures
        final(out)@ == old(out)@ + spec_enc_transaction(t@),
{
    match t {
        ChatTransaction::Request(r) => {
            out.push('q');
            write_request(out, r);
        },
        ChatTransaction::Response(r) => {
            out.push('r');
            write_response(out, r);
        },
        ChatTransaction::StreamResponse(sr) => {
            out.push('t');
            write_streamed(out, sr);
        },
    }
    assert(out@ =~= old(out)@ + spec_enc_transaction(t@));
}

/// Decode a transaction at `pos`.
pub fn read_transaction(s: &Vec<char>, pos: usize) -> (r: Option<(ChatTransaction, usize)>)
    ensures
        r matches Some(vp) ==> (spec_dec_transaction(s@, pos as int) matches Some(w) && w.0
            == vp.0@ && w.1 == vp.1 as int),
        r is None ==> spec_dec_transaction(s@, pos as int) is None,
{
    if pos >= s.len() {
        return Option::None;
    }
    let c = s[pos];
    if c == 'q' {
        match read_request(s, pos + 1) {
            Option::None => Option::None,
            Option::Some((req, p)) => Option::Some((ChatTransaction::Request(req), p)),
        }
    } else if c == 'r' {
        match read_response(s, pos + 1) {
            Option::None => Option::None,
            Option::Some((resp, p)) => Option::Some((ChatTransaction::Response(resp), p)),
        }
    } else if c == 't' {
        match read_streamed(s, pos + 1) {
            Option::None => Option::None,
            Option::Some((sr, p)) => Option::Some((ChatTransaction::StreamResponse(sr), p)),
        }
    } else {
        Option::None
    }
}

/// The encodings of a transaction list's items.
pub open spec fn spec_enc_transaction_items(items: Seq<ChatTransactionView>) -> Seq<Seq<char>> {
    items.map_values(|v: ChatTransactionView| spec_enc_transaction(v))
}

/// A transaction list's encoding: the count, then the items.
pub open spec fn spec_enc_transaction_list(items: Seq<ChatTransactionView>) -> Seq<char> {
    spec_enc_nat(items.len()) + spec_concat(spec_enc_transaction_items(items))
}

/// `count` items decoded one after another from `pos`.
pub open spec fn spec_dec_transaction_list_rec(s: Seq<char>, pos: int, count: nat) -> Option<
    (Seq<ChatTransactionView>, int),
>
    decreases count,
{
    if count == 0 {
        Option::Some((Seq::empty(), pos))
    } else {
        match spec_dec_transaction(s, pos) {
            Option::Some(vp) => match spec_dec_transaction_list_rec(s, vp.1, (count - 1) as nat) {
                Option::Some(lp) => Option::Some((seq![vp.0] + lp.0, lp.1)),
                Option::None => Option::None,
            },
            Option::None => Option::None,
        }
    }
}

/// A transaction list decoded at `pos`.
pub open spec fn spec_dec_transaction_list(s: Seq<char>, pos: int) -> Option<(Seq<ChatTransactionView>, int)> {
    match spec_dec_nat(s, pos) {
        Option::Some(np) => spec_dec_transaction_list_rec(s, np.1, np.0),
        Option::None => Option::None,
    }
}

proof fn lemma_dec_transaction_list_rec_bound(s: Seq<char>, pos: int, count: nat)
    ensures
        spec_dec_transaction_list_rec(s, pos, count) matches Some(lp) ==> pos <= lp.1,
        spec_dec_transaction_list_rec(s, pos, count) matches Some(lp) ==> (count >= 1 ==> (pos < lp.1
            <= s.len() && count <= s.len() - pos)),
    decreases count,
{
    if count == 0 {
    } else {
        match spec_dec_transaction(s, pos) {
            Option::Some(vp) => {
                lemma_dec_transaction_pos(s, pos);
                lemma_dec_transaction_list_rec_bound(s, vp.1, (count - 1) as nat);
            },
            Option::None => {},
        }
    }
}

proof fn lemma_dec_transaction_list_pos(s: Seq<char>, pos: int)
    ensures
        spec_dec_transaction_list(s, pos) matches Some(vp) ==> pos < vp.1 <= s.len(),
{
    lemma_dec_nat_pos(s, pos, 0);
    match spec_dec_nat(s, pos) {
        Option::Some(np) => {
            lemma_dec_transaction_list_rec_bound(s, np.1, np.0);
            if np.0 == 0 {
            }
        },
        Option::None => {},
    }
}

proof fn lemma_dec_enc_transaction_list_rec(s: Seq<char>, pos: int, items: Seq<ChatTransactionView>)
    requires
        0 <= pos,
        pos + spec_concat(spec_enc_transaction_items(items)).len() <= s.len(),
        s.subrange(pos, pos + spec_concat(spec_enc_transaction_items(items)).len() as int)
            == spec_concat(spec_enc_transaction_items(items)),
    ensures
        spec_dec_transaction_list_rec(s, pos, items.len()) == Option::Some(
            (items, pos + spec_concat(spec_enc_transaction_items(items)).len()),
        ),
    decreases items.len(),
{
    let parts = spec_enc_transaction_items(items);
    if items.len() == 0 {
        assert(items =~= Seq::<ChatTransactionView>::empty());
    } else {
        let e0 = spec_enc_transaction(items[0]);
        let l0 = e0.len() as int;
        let whole = spec_concat(parts);
        assert(parts[0] == e0);
        assert(whole == e0 + spec_concat(parts.drop_first()));
        let rest_items = items.drop_first();
        assert(parts.drop_first() =~= spec_enc_transaction_items(rest_items));
        lemma_segment(s, pos, whole, 0, l0);
        assert(whole.subrange(0, l0) =~= e0);
        lemma_dec_enc_transaction(s, pos, items[0]);
        lemma_segment(s, pos, whole, l0, whole.len() as int);
        assert(whole.subrange(l0, whole.len() as int) =~= spec_concat(
            spec_enc_transaction_items(rest_items),
        ));
        lemma_dec_enc_transaction_list_rec(s, pos + l0, rest_items);
        assert(seq![items[0]] + rest_items =~= items);
    }
}

/// Wherever a buffer carries an encoded transaction list,
/// decoding there yields the items back.
pub proof fn lemma_dec_enc_transaction_list(s: Seq<char>, pos: int, items: Seq<ChatTransactionView>)
    requires
        0 <= pos,
        pos + spec_enc_transaction_list(items).len() <= s.len(),
        s.subrange(pos, pos + spec_enc_transaction_list(items).len() as int) == spec_enc_transaction_list(items),
    ensures
        spec_dec_transaction_list(s, pos) == Option::Some((items, pos + spec_enc_transaction_list(items).len())),
{
    let e1 = spec_enc_nat(items.len());
    let l1 = e1.len() as int;
    let whole = spec_enc_transaction_list(items);
    lemma_segment(s, pos, whole, 0, l1);
    assert(whole.subrange(0, l1) =~= e1);
    lemma_dec_enc_nat(s, pos, items.len());
    lemma_segment(s, pos, whole, l1, whole.len() as int);
    assert(whole.subrange(l1, whole.len() as int) =~= spec_concat(
        spec_enc_transaction_items(items),
    ));
    lemma_dec_enc_transaction_list_rec(s, pos + l1, items);
}

/// Append `spec_enc_transaction_list` of the vector's views.
pub fn write_transaction_list(out: &mut Vec<char>, items: &Vec<ChatTransaction>)
    ensures
        final(out)@ == old(out)@ + spec_enc_transaction_list(items@.map_values(|t: ChatTransaction| t@)),
{
    let ghost views = items@.map_values(|t: ChatTransaction| t@);
    let len64 = items.len() as u64;
    write_nat(out, len64);
    let ghost base = out@;
    let mut i: usize = 0;
    proof {
        assert(spec_enc_transaction_items(views).subrange(0, 0) =~= Seq::<Seq<char>>::empty());
        assert(base + spec_concat(Seq::<Seq<char>>::empty()) =~= base);
    }
    while i < items.len()
        invariant
            i <= items@.len(),
            views == items@.map_values(|t: ChatTransaction| t@),
            out@ == base + spec_concat(spec_enc_transaction_items(views).subrange(0, i as int)),
        decreases items@.len() - i,
    {
        write_transaction(out, &items[i]);
        proof {
            let pieces = spec_enc_transaction_items(views).subrange(0, i as int);
            lemma_concat_push(pieces, spec_enc_transaction(views[i as int]));
            assert(pieces.push(spec_enc_transaction(views[i as int]))
                =~= spec_enc_transaction_items(views).subrange(0, i as int + 1));
            assert(out@ =~= base + spec_concat(
                spec_enc_transaction_items(views).subrange(0, i as int + 1),
            ));
        }
        i = i + 1;
    }
    proof {
        assert(spec_enc_transaction_items(views).subrange(0, views.len() as int)
            =~= spec_enc_transaction_items(views));
        assert(out@ =~= old(out)@ + spec_enc_transaction_list(views));
    }
}

/// Decode a transaction list at `pos`.
pub fn read_transaction_list(s: &Vec<char>, pos: usize) -> (r: Option<(Vec<ChatTransaction>, usize)>)
    ensures
        r matches Some(vp) ==> (spec_dec_transaction_list(s@, pos as int) matches Some(w) && w.0
            == vp.0@.map_values(|t: ChatTransaction| t@) && w.1 == vp.1 as int),
        r is None ==> spec_dec_transaction_list(s@, pos as int) is None,
{
    let n = s.len();
    match read_u64(s, pos) {
        Option::None => {
            proof {
                match spec_dec_nat(s@, pos as int) {
                    Option::Some(np) => {
                        lemma_dec_nat_pos(s@, pos as int, 0);
                        lemma_dec_transaction_list_rec_bound(s@, np.1, np.0);
                    },
                    Option::None => {},
                }
            }
            Option::None
        },
        Option::Some((count64, p0)) => {
            proof {
                lemma_dec_nat_pos(s@, pos as int, 0);
            }
            if count64 > (n - p0) as u64 {
                proof {
                    lemma_dec_transaction_list_rec_bound(s@, p0 as int, count64 as nat);
                }
                return Option::None;
            }
            let count = count64 as usize;
            let mut items: Vec<ChatTransaction> = Vec::new();
            let mut p: usize = p0;
            let mut i: usize = 0;
            while i < count
                invariant
                    i <= count,
                    p <= n,
                    n == s@.len(),
                    items@.len() == i,
                    spec_dec_nat(s@, pos as int) == Option::Some((count as nat, p0 as int)),
                    spec_dec_transaction_list_rec(s@, p0 as int, count as nat) == (match
                        spec_dec_transaction_list_rec(s@, p as int, (count - i) as nat) {
                        Option::Some(lp) => Option::Some(
                            (items@.map_values(|t: ChatTransaction| t@) + lp.0, lp.1),
                        ),
                        Option::None => Option::None,
                    }),
                decreases count - i,
            {
                let ghost items0 = items@.map_values(|t: ChatTransaction| t@);
                match read_transaction(s, p) {
                    Option::None => {
                        proof {
                            assert(count - i >= 1);
                            assert(spec_dec_transaction(s@, p as int) is None);
                            assert(spec_dec_transaction_list_rec(s@, p as int, (count - i) as nat)
                                is None);
                            assert(spec_dec_transaction_list_rec(s@, p0 as int, count as nat) is None);
                            assert(spec_dec_transaction_list(s@, pos as int) is None);
                        }
                        return Option::None;
                    },
                    Option::Some((m, p2)) => {
                        proof {
                            lemma_dec_transaction_pos(s@, p as int);
                        }
                        items.push(m);
                        proof {
                            let mv = m@;
                            assert(items@.map_values(|t: ChatTransaction| t@) =~= items0.push(mv));
                            match spec_dec_transaction_list_rec(s@, p2 as int, (count - i - 1) as nat) {
                                Option::Some(lp) => {
                                    assert(items0 + (seq![mv] + lp.0) =~= items0.push(mv) + lp.0);
                                },
                                Option::None => {},
                            }
                        }
                        p = p2;
                    },
                }
                i = i + 1;
            }
            proof {
                assert(items@.map_values(|t: ChatTransaction| t@) + Seq::<ChatTransactionView>::empty()
                    =~= items@.map_values(|t: ChatTransaction| t@));
            }
            Option::Some((items, p))
        },
    }
}

/// A session configuration's encoding: its fields in order.
pub open spec fn spec_enc_config(v: SessionConfigView) -> Seq<char> {
    spec_enc_str(v.prompt) + spec_enc_str(v.session_id) + spec_enc_model(v.model) + spec_enc_bool(v.include_functions) + spec_enc_bool(v.stream_response) + spec_enc_usize(v.function_result_max_tokens) + spec_enc_usize(v.response_max_tokens)
}

/// A session configuration decoded at `pos`.
pub open spec fn spec_dec_config(s: Seq<char>, pos: int) -> Option<(SessionConfigView, int)> {
    match spec_dec_str(s, pos) {
        Option::Some(x0) => {
        match spec_dec_str(s, x0.1) {
            Option::Some(x1) => {
            match spec_dec_model(s, x1.1) {
                Option::Some(x2) => {
                match spec_dec_bool(s, x2.1) {
                    Option::Some(x3) => {
                    match spec_dec_bool(s, x3.1) {
                        Option::Some(x4) => {
                        match spec_dec_usize(s, x4.1) {
                            Option::Some(x5) => {
                            match spec_dec_usize(s, x5.1) {
                                Option::Some(x6) => {
                                Option::Some((SessionConfigView { prompt: x0.0, session_id: x1.0, model: x2.0, include_functions: x3.0, stream_response: x4.0, function_result_max_tokens: x5.0, response_max_tokens: x6.0 }, x6.1))
                                },
                                Option::None => Option::None,
                            }
                            },
                            Option::None => Option::None,
                        }
                        },
                        Option::None => Option::None,
                    }
                    },
                    Option::None => Option::None,
                }
                },
                Option::None => Option::None,
            }
            },
            Option::None => Option::None,
        }
        },
        Option::None => Option::None,
    }

}

proof fn lemma_dec_config_pos(s: Seq<char>, pos: int)
    ensures
        spec_dec_config(s, pos) matches Some(vp) ==> pos < vp.1 <= s.len(),
{
    lemma_dec_str_pos(s, pos);
    match spec_dec_str(s, pos) {
        Option::Some(x0) => {
            lemma_dec_str_pos(s, x0.1);
            match spec_dec_str(s, x0.1) {
                Option::Some(x1) => {
                    lemma_dec_model_pos(s, x1.1);
                    match spec_dec_model(s, x1.1) {
                        Option::Some(x2) => {
                            lemma_dec_bool_pos(s, x2.1);
                            match spec_dec_bool(s, x2.1) {
                                Option::Some(x3) => {
                                    lemma_dec_bool_pos(s, x3.1);
                                    match spec_dec_bool(s, x3.1) {
                                        Option::Some(x4) => {
                                            lemma_dec_usize_pos(s, x4.1);
                                            match spec_dec_usize(s, x4.1) {
                                                Option::Some(x5) => {
                                                    lemma_dec_usize_pos(s, x5.1);
                                                },
                                                Option::None => {},
                                            }
                                        },
                                        Option::None => {},
                                    }
                                },
                                Option::None => {},
                            }
                        },
                        Option::None => {},
                    }
                },
                Option::None => {},
            }
        },
        Option::None => {},
    }

}

pub proof fn lemma_dec_enc_config(s: Seq<char>, pos: int, v: SessionConfigView)
    requires
        0 <= pos,
        pos + spec_enc_config(v).len() <= s.len(),
        s.subrange(pos, pos + spec_enc_config(v).len() as int) == spec_enc_config(v),
    ensures
        spec_dec_config(s, pos) == Option::Some((v, pos + spec_enc_config(v).len())),
{
    let e0 = spec_enc_str(v.prompt);
    let l0 = e0.len() as int;
    let e1 = spec_enc_str(v.session_id);
    let l1 = e1.len() as int;
    let e2 = spec_enc_model(v.model);
    let l2 = e2.len() as int;
    let e3 = spec_enc_bool(v.include_functions);
    let l3 = e3.len() as int;
    let e4 = spec_enc_bool(v.stream_response);
    let l4 = e4.len() as int;
    let e5 = spec_enc_usize(v.function_result_max_tokens);
    let l5 = e5.len() as int;
    let e6 = spec_enc_usize(v.response_max_tokens);
    let l6 = e6.len() as int;
    let whole = spec_enc_config(v);
    lemma_segment(s, pos, whole, 0, l0);
    assert(whole.subrange(0, l0) =~= e0);
    lemma_dec_enc_str(s, pos, v.prompt);
    lemma_segment(s, pos, whole, l0, l0 + l1);
    assert(whole.subrange(l0, l0 + l1) =~= e1);
    lemma_dec_enc_str(s, pos + l0, v.session_id);
    lemma_segment(s, pos, whole, l0 + l1, l0 + l1 + l2);
    assert(whole.subrange(l0 + l1, l0 + l1 + l2) =~= e2);
    lemma_dec_enc_model(s, pos + l0 + l1, v.model);
    lemma_segment(s, pos, whole, l0 + l1 + l2, l0 + l1 + l2 + l3);
    assert(whole.subrange(l0 + l1 + l2, l0 + l1 + l2 + l3) =~= e3);
    lemma_dec_enc_bool(s, pos + l0 + l1 + l2, v.include_functions);
    lemma_segment(s, pos, whole, l0 + l1 + l2 + l3, l0 + l1 + l2 + l3 + l4);
    assert(whole.subrange(l0 + l1 + l2 + l3, l0 + l1 + l2 + l3 + l4) =~= e4);
    lemma_dec_enc_bool(s, pos + l0 + l1 + l2 + l3, v.stream_response);
    lemma_segment(s, pos, whole, l0 + l1 + l2 + l3 + l4, l0 + l1 + l2 + l3 + l4 + l5);
    assert(whole.subrange(l0 + l1 + l2 + l3 + l4, l0 + l1 + l2 + l3 + l4 + l5) =~= e5);
    lemma_dec_enc_usize(s, pos + l0 + l1 + l2 + l3 + l4, v.function_result_max_tokens);
    lemma_segment(s, pos, whole, l0 + l1 + l2 + l3 + l4 + l5, l0 + l1 + l2 + l3 + l4 + l5 + l6);
    assert(whole.subrange(l0 + l1 + l2 + l3 + l4 + l5, l0 + l1 + l2 + l3 + l4 + l5 + l6) =~= e6);
    lemma_dec_enc_usize(s, pos + l0 + l1 + l2 + l3 + l4 + l5, v.response_max_tokens);
}

/// Append `spec_enc_config` of the value's view.
pub fn write_config(out: &mut Vec<char>, v: &SessionConfig)
    ensures
        final(out)@ == old(out)@ + spec_enc_config(v@),
{
    write_str(out, v.prompt.as_str());
    write_str(out, v.session_id.as_str());
    write_model(out, &v.model);
    write_bool(out, v.include_functions);
    write_bool(out, v.stream_response);
    write_usize(out, v.function_result_max_tokens);
    write_usize(out, v.response_max_tokens);
    assert(out@ =~= old(out)@ + spec_enc_config(v@));
}

/// Decode a session configuration at `pos`.
pub fn read_config(s: &Vec<char>, pos: usize) -> (r: Option<(SessionConfig, usize)>)
    ensures
        r matches Some(vp) ==> (spec_dec_config(s@, pos as int) matches Some(w) && w.0 == vp.0@
            && w.1 == vp.1 as int),
        r is None ==> spec_dec_config(s@, pos as int) is None,
{
    match read_str(s, pos) {
        Option::None => Option::None,
        Option::Some((y0, p0)) => {
            match read_str(s, p0) {
                Option::None => Option::None,
                Option::Some((y1, p1)) => {
                    match read_model(s, p1) {
                        Option::None => Option::None,
                        Option::Some((y2, p2)) => {
                            match read_bool(s, p2) {
                                Option::None => Option::None,
                                Option::Some((y3, p3)) => {
                                    match read_bool(s, p3) {
                                        Option::None => Option::None,
                                        Option::Some((y4, p4)) => {
                                            match read_usize(s, p4) {
                                                Option::None => Option::None,
                                                Option::Some((y5, p5)) => {
                                                    match read_usize(s, p5) {
                                                        Option::None => Option::None,
                                                        Option::Some((y6, p6)) => {
                                                            Option::Some((SessionConfig { prompt: y0, session_id: y1, model: y2, include_functions: y3, stream_response: y4, function_result_max_tokens: y5, response_max_tokens: y6 }, p6))
                                                        },
                                                    }
                                                },
                                            }
                                        },
                                    }
                                },
                            }
                        },
                    }
                },
            }
        },
    }

}

/// A whole session's encoding: the configuration, then the log.
pub open spec fn spec_enc_session(v: SessionView) -> Seq<char> {
    spec_enc_config(v.config) + spec_enc_transaction_list(v.transactions)
}

/// A whole session decoded at `pos`.
pub open spec fn spec_dec_session(s: Seq<char>, pos: int) -> Option<(SessionView, int)> {
    match spec_dec_config(s, pos) {
        Option::Some(x0) => {
        match spec_dec_transaction_list(s, x0.1) {
            Option::Some(x1) => {
            Option::Some((SessionView { config: x0.0, transactions: x1.0 }, x1.1))
            },
            Option::None => Option::None,
        }
        },
        Option::None => Option::None,
    }

}

proof fn lemma_dec_session_pos(s: Seq<char>, pos: int)
    ensures
        spec_dec_session(s, pos) matches Some(vp) ==> pos < vp.1 <= s.len(),
{
    lemma_dec_config_pos(s, pos);
    match spec_dec_config(s, pos) {
        Option::Some(x0) => {
            lemma_dec_transaction_list_pos(s, x0.1);
        },
        Option::None => {},
    }

}

pub proof fn lemma_dec_enc_session(s: Seq<char>, pos: int, v: SessionView)
    requires
        0 <= pos,
        pos + spec_enc_session(v).len() <= s.len(),
        s.subrange(pos, pos + spec_enc_session(v).len() as int) == spec_enc_session(v),
    ensures
        spec_dec_session(s, pos) == Option::Some((v, pos + spec_enc_session(v).len())),
{
    let e0 = spec_enc_config(v.config);
    let l0 = e0.len() as int;
    let e1 = spec_enc_transaction_list(v.transactions);
    let l1 = e1.len() as int;
    let whole = spec_enc_session(v);
    lemma_segment(s, pos, whole, 0, l0);
    assert(whole.subrange(0, l0) =~= e0);
    lemma_dec_enc_config(s, pos, v.config);
    lemma_segment(s, pos, whole, l0, l0 + l1);
    assert(whole.subrange(l0, l0 + l1) =~= e1);
    lemma_dec_enc_transaction_list(s, pos + l0, v.transactions);
}

/// Append `spec_enc_session` of the value's view.
pub fn write_session(out: &mut Vec<char>, v: &Session)
    ensures
        final(out)@ == old(out)@ + spec_enc_session(v@),
{
    write_config(out, &v.config);
    write_transaction_list(out, &v.transactions);
    assert(out@ =~= old(out)@ + spec_enc_session(v@));
}

/// Decode a whole session at `pos`.
pub fn read_session(s: &Vec<char>, pos: usize) -> (r: Option<(Session, usize)>)
    ensures
        r matches Some(vp) ==> (spec_dec_session(s@, pos as int) matches Some(w) && w.0 == vp.0@
            && w.1 == vp.1 as int),
        r is None ==> spec_dec_session(s@, pos as int) is None,
{
    match read_config(s, pos) {
        Option::None => Option::None,
        Option::Some((y0, p0)) => {
            match read_transaction_list(s, p0) {
                Option::None => Option::None,
                Option::Some((y1, p1)) => {
                    Option::Some((Session { config: y0, transactions: y1 }, p1))
                },
            }
        },
    }

}

/// What a whole session file must decode to: one session, consuming the
/// entire text. Trailing garbage makes the file corrupt.
pub open spec fn spec_dec_session_exact(d: Seq<char>) -> Option<SessionView> {
    match spec_dec_session(d, 0) {
        Option::Some(vp) => if vp.1 == d.len() {
            Option::Some(vp.0)
        } else {
            Option::None
        },
        Option::None => Option::None,
    }
}

/// The round trip of session persistence: the text `spec_enc_session`
/// produces for any session decodes back, consumes the whole text, and
/// yields exactly the session it came from — loading what was saved
/// gives the session back, transactions and configuration alike.
pub proof fn lemma_save_load_round_trip(v: SessionView)
    ensures
        spec_dec_session_exact(spec_enc_session(v)) == Option::Some(v),
{
    let e = spec_enc_session(v);
    assert(e.subrange(0, e.len() as int) =~= e);
    lemma_dec_enc_session(e, 0, v);
}

} // verus!
