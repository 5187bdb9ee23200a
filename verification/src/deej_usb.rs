//! What goes to the host and what comes from it: the line of channel values,
//! and the host's going to sleep and waking up.

use crate::graphics::ScreenState;
use crate::shared::{SharedState, SharedView};
use core::fmt::Write;
use vstd::prelude::*;

verus! {

/// The length of the line buffer, in bytes.
pub const LINE_CAPACITY: usize = 96;

/// The byte that separates two values of a line.
pub const SEPARATOR: u8 = 124;

/// Whether the host is awake.
#[derive(Clone, Copy, Debug, PartialEq, Eq, Structural)]
pub enum HostState {
    Active,
    Suspended,
}

/// What a change of the host's state makes of the shared state: a host that
/// wakes up gets all values anew and sees the intro; a host that goes to
/// sleep changes nothing.
pub open spec fn host_state_spec(pre: SharedView, state: HostState) -> SharedView {
    match state {
        HostState::Active => SharedView { force_push: true, screen: ScreenState::INTRO, ..pre },
        HostState::Suspended => pre,
    }
}

/// Takes note of a change of the host's state.
pub fn on_host_state(shared: &mut SharedState, state: HostState)
    ensures
        final(shared)@ == host_state_spec(old(shared)@, state),
{
    match state {
        HostState::Active => {
            shared.set_force_push(true);
            shared.set_screen_state(ScreenState::INTRO);
        },
        HostState::Suspended => {},
    }
}

/// `heapless::String`: a string of a fixed capacity, of which nothing is seen
/// but through `line_bytes`.
#[verifier::external_type_specification]
#[verifier::external_body]
pub struct ExLineBuffer<const N: usize>(heapless::String<N>);

/// The bytes that a line buffer holds.
pub uninterp spec fn line_bytes(line: heapless::String<96>) -> Seq<u8>;

/// The decimal digits of a number, as ASCII bytes, without leading zeros.
pub open spec fn decimal_bytes(n: nat) -> Seq<u8>
    decreases n,
{
    if n < 10 {
        seq![(48 + n) as u8]
    } else {
        decimal_bytes(n / 10).push((48 + n % 10) as u8)
    }
}

/// `acc` with `piece` behind it where the two fit the line buffer, else
/// `acc` alone.
pub open spec fn append_fitting(acc: Seq<u8>, piece: Seq<u8>) -> Seq<u8> {
    if acc.len() + piece.len() <= LINE_CAPACITY {
        acc + piece
    } else {
        acc
    }
}

/// The line of a snapshot: its values in decimal, joined by `|`.
pub open spec fn snapshot_line(values: Seq<u32>) -> Seq<u8>
    decreases values.len(),
{
    if values.len() == 0 {
        Seq::empty()
    } else if values.len() == 1 {
        decimal_bytes(values[0] as nat)
    } else {
        snapshot_line(values.drop_last()).push(SEPARATOR) + decimal_bytes(values.last() as nat)
    }
}

/// The line of a snapshot as the line buffer takes it: a separator or a
/// number that no longer fits is left out.
pub open spec fn fitted_line(values: Seq<u32>) -> Seq<u8>
    decreases values.len(),
{
    if values.len() == 0 {
        Seq::empty()
    } else if values.len() == 1 {
        append_fitting(Seq::empty(), decimal_bytes(values[0] as nat))
    } else {
        append_fitting(
            append_fitting(fitted_line(values.drop_last()), seq![SEPARATOR]),
            decimal_bytes(values.last() as nat),
        )
    }
}

/// `heapless::String::new`: a new line buffer is empty.
#[verifier::external_body]
fn line_new() -> (line: heapless::String<96>)
    ensures
        line_bytes(line) == Seq::<u8>::empty(),
{
    heapless::String::new()
}

/// `heapless::String::push` with the separator, into a buffer that has room
/// for one more byte: the byte is appended.
#[verifier::external_body]
fn line_push_separator(line: &mut heapless::String<96>)
    requires
        line_bytes(*old(line)).len() + 1 <= LINE_CAPACITY,
    ensures
        line_bytes(*final(line)) == line_bytes(*old(line)).push(SEPARATOR),
{
    let _ = line.push('|');
}

/// `write!` of a `u32` with `{}` into a `heapless::String` that has room for
/// its digits: the decimal digits are appended.
#[verifier::external_body]
fn line_push_decimal(line: &mut heapless::String<96>, v: u32)
    requires
        line_bytes(*old(line)).len() + decimal_bytes(v as nat).len() <= LINE_CAPACITY,
    ensures
        line_bytes(*final(line)) == line_bytes(*old(line)) + decimal_bytes(v as nat),
{
    let _ = write!(line, "{}", v);
}

/// The number of decimal digits of a number.
pub fn decimal_len(v: u32) -> (n: usize)
    ensures
        n == decimal_bytes(v as nat).len(),
        1 <= n <= 10,
{
    proof {
        lemma_decimal_len_u32(v);
    }
    let mut n: usize = 1;
    let mut rest: u32 = v;
    while rest >= 10
        invariant
            1 <= n,
            n + decimal_bytes(rest as nat).len() == decimal_bytes(v as nat).len() + 1,
            decimal_bytes(v as nat).len() <= 10,
            decimal_bytes(rest as nat).len() >= 1,
        decreases rest,
    {
        proof {
            lemma_decimal_len_u32(rest / 10);
        }
        rest = rest / 10;
        n += 1;
    }
    n
}

/// Ten to the power of `k`.
pub open spec fn pow10(k: nat) -> nat
    decreases k,
{
    if k == 0 {
        1
    } else {
        10 * pow10((k - 1) as nat)
    }
}

/// A number below ten to the `k` has at most `k` digits, and at least one.
pub proof fn lemma_decimal_len(n: nat, k: nat)
    requires
        k >= 1,
        n < pow10(k),
    ensures
        1 <= decimal_bytes(n).len() <= k,
    decreases n,
{
    reveal_with_fuel(pow10, 2);
    if n >= 10 {
        if k == 1 {
            assert(pow10(1) == 10);
        } else {
            assert(n / 10 < pow10((k - 1) as nat)) by {
                assert(pow10(k) == 10 * pow10((k - 1) as nat));
            }
            lemma_decimal_len(n / 10, (k - 1) as nat);
        }
    }
}

/// A 32-bit number has at most ten digits.
pub proof fn lemma_decimal_len_u32(v: u32)
    ensures
        1 <= decimal_bytes(v as nat).len() <= 10,
{
    reveal_with_fuel(pow10, 11);
    assert(pow10(10) == 10_000_000_000);
    lemma_decimal_len(v as nat, 10);
}

/// The line of `n` values has at most `11 * n` bytes.
pub proof fn lemma_snapshot_line_len(values: Seq<u32>)
    ensures
        snapshot_line(values).len() <= 11 * values.len(),
    decreases values.len(),
{
    if values.len() == 1 {
        lemma_decimal_len_u32(values[0]);
    } else if values.len() > 1 {
        lemma_snapshot_line_len(values.drop_last());
        lemma_decimal_len_u32(values.last());
    }
}

/// A snapshot of up to eight values fits the line buffer whole.
pub proof fn lemma_line_fits(values: Seq<u32>)
    requires
        values.len() <= 8,
    ensures
        fitted_line(values) == snapshot_line(values),
        snapshot_line(values).len() <= LINE_CAPACITY,
    decreases values.len(),
{
    lemma_snapshot_line_len(values);
    if values.len() == 1 {
        assert(Seq::<u8>::empty() + decimal_bytes(values[0] as nat) =~= decimal_bytes(
            values[0] as nat,
        ));
    } else if values.len() > 1 {
        let head = values.drop_last();
        lemma_line_fits(head);
        lemma_snapshot_line_len(head);
        lemma_decimal_len_u32(values.last());
        assert(snapshot_line(head) + seq![SEPARATOR] =~= snapshot_line(head).push(SEPARATOR));
    }
}

/// The line that publishes a snapshot: the values in decimal, joined by `|`.
/// A snapshot of up to eight values fits the line whole; of a longer one the
/// pieces that no longer fit are left out.
pub fn write_adc_values(values: &[u32]) -> (out: heapless::String<96>)
    ensures
        line_bytes(out) == fitted_line(values@),
        values@.len() <= 8 ==> line_bytes(out) == snapshot_line(values@),
{
    let mut out = line_new();
    let mut used: usize = 0;
    let mut i: usize = 0;
    while i < values.len()
        invariant
            i <= values@.len(),
            used == line_bytes(out).len(),
            used <= LINE_CAPACITY,
            line_bytes(out) == fitted_line(values@.take(i as int)),
        decreases values@.len() - i,
    {
        if i > 0 && used + 1 <= LINE_CAPACITY {
            line_push_separator(&mut out);
            used += 1;
            assert(line_bytes(out) =~= append_fitting(
                fitted_line(values@.take(i as int)),
                seq![SEPARATOR],
            ));
        }
        let digits = decimal_len(values[i]);
        if used + digits <= LINE_CAPACITY {
            line_push_decimal(&mut out, values[i]);
            used += digits;
        }
        proof {
            let upto = values@.take(i + 1);
            assert(upto.drop_last() =~= values@.take(i as int));
            assert(upto.last() == values@[i as int]);
            if i == 0 {
                assert(upto[0] == values@[0]);
            }
        }
        i += 1;
    }
    proof {
        assert(values@.take(i as int) =~= values@);
        if values@.len() <= 8 {
            lemma_line_fits(values@);
        }
    }
    out
}

} // verus!
