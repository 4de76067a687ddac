use vstd::prelude::*;

verus! {

/// Distance from the right edge of the screen to the frame-time label.
pub const LABEL_RIGHT_MARGIN: u32 = 20;

/// Distance from the top of the screen to the frame-time label.
pub const LABEL_TOP: i32 = 10;

/// The decimal digit `d` as a character.
pub open spec fn digit_char(d: int) -> char {
    if d == 0 {
        '0'
    } else if d == 1 {
        '1'
    } else if d == 2 {
        '2'
    } else if d == 3 {
        '3'
    } else if d == 4 {
        '4'
    } else if d == 5 {
        '5'
    } else if d == 6 {
        '6'
    } else if d == 7 {
        '7'
    } else if d == 8 {
        '8'
    } else {
        '9'
    }
}

/// The decimal representation of `n`, most significant digit first, with
/// no leading zeros ("0" for zero).
pub open spec fn decimal(n: nat) -> Seq<char>
    decreases n,
{
    if n < 10 {
        seq![digit_char(n as int)]
    } else {
        decimal(n / 10).push(digit_char((n % 10) as int))
    }
}

fn digit(d: u64) -> (c: char)
    requires
        d < 10,
    ensures
        c == digit_char(d as int),
{
    if d == 0 {
        '0'
    } else if d == 1 {
        '1'
    } else if d == 2 {
        '2'
    } else if d == 3 {
        '3'
    } else if d == 4 {
        '4'
    } else if d == 5 {
        '5'
    } else if d == 6 {
        '6'
    } else if d == 7 {
        '7'
    } else if d == 8 {
        '8'
    } else {
        '9'
    }
}

fn push_decimal(n: u64, out: &mut Vec<char>)
    ensures
        final(out)@ == old(out)@ + decimal(n as nat),
    decreases n,
{
    if n >= 10 {
        push_decimal(n / 10, out);
    }
    out.push(digit(n % 10));
}

/// The length of a frame in whole milliseconds, from its whole seconds and
/// the milliseconds past them.
pub open spec fn frame_millis(secs: u64, subsec_millis: u32) -> int {
    secs * 1000 + subsec_millis
}

/// The frame-time label: the frame's length in milliseconds, in decimal.
pub fn frame_time_label(secs: u64, subsec_millis: u32) -> (label: Vec<char>)
    requires
        frame_millis(secs, subsec_millis) <= u64::MAX,
    ensures
        label@ == decimal(frame_millis(secs, subsec_millis) as nat),
        decimal_value(label@) == secs * 1000 + subsec_millis,
        label@.len() >= 1,
        forall|i: int| 0 <= i < label@.len() ==> '0' <= #[trigger] label@[i] <= '9',
        label@[0] == '0' ==> secs == 0 && subsec_millis == 0,
{
    proof {
        lemma_decimal_round_trip(frame_millis(secs, subsec_millis) as nat);
    }
    let ms = secs * 1000 + (subsec_millis as u64);
    let mut label: Vec<char> = Vec::new();
    push_decimal(ms, &mut label);
    assert(label@ == Seq::<char>::empty() + decimal(ms as nat));
    label
}

/// Left edge of the label's rightmost glyph on a screen `width` pixels
/// wide; the other glyphs follow leftwards.
pub fn label_origin_x(width: u32) -> (x: i32)
    requires
        width >= LABEL_RIGHT_MARGIN,
    ensures
        x == (width - LABEL_RIGHT_MARGIN) as i32,
{
    (width - LABEL_RIGHT_MARGIN) as i32
}

/// The number that a string of decimal digits stands for.
pub open spec fn decimal_value(digits: Seq<char>) -> int
    decreases digits.len(),
{
    if digits.len() == 0 {
        0
    } else {
        decimal_value(digits.drop_last()) * 10 + (digits.last() as int - '0' as int)
    }
}

/// Reading the frame-time label back as a decimal number gives the number
/// of milliseconds it was made from.
pub proof fn lemma_decimal_round_trip(n: nat)
    ensures
        decimal_value(decimal(n)) == n,
        decimal(n).len() >= 1,
        forall|i: int| 0 <= i < decimal(n).len() ==> '0' <= #[trigger] decimal(n)[i] <= '9',
        decimal(n)[0] == '0' ==> n == 0,
    decreases n,
{
    lemma_digit_char_value((n % 10) as int);
    if n >= 10 {
        lemma_decimal_round_trip(n / 10);
        let d = decimal(n);
        assert(d.drop_last() == decimal(n / 10));
        assert(d.last() == digit_char((n % 10) as int));
        assert(decimal_value(d) == decimal_value(d.drop_last()) * 10 + (d.last() as int - '0' as int));
        assert((n / 10) * 10 + n % 10 == n);
    } else {
        assert(decimal(n).drop_last() == Seq::<char>::empty());
        assert(decimal_value(Seq::<char>::empty()) == 0);
    }
}

proof fn lemma_digit_char_value(d: int)
    requires
        0 <= d < 10,
    ensures
        digit_char(d) as int - '0' as int == d,
{
}

} // verus!
