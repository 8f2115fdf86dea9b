//! What is drawn by the programs that show something, and what they make of the answers.

use vstd::prelude::*;

verus! {

/// The exit code of a run in which everything was as it should be.
pub const OK_CODE: i32 = 0x42;

/// A word turned to the left.
pub open spec fn turned(x: u32, by: u32) -> u32 {
    if by == 0 {
        x
    } else {
        (x << by) | (x >> ((32 - by) as u32))
    }
}

/// What a place is hashed to.
pub open spec fn stirred(i: int) -> u32 {
    ((i * 0x9E37_79B1) % 0x1_0000_0000) as u32
}

fn stir(i: u32) -> (x: u32)
    ensures
        x == stirred(i as int),
{
    i.wrapping_mul(0x9E37_79B1)
}

/// The pixel that goes to the card at a place.
pub open spec fn card_pixel(i: int) -> u32 {
    stirred(i) ^ 0x1234_5678
}

/// The pixel of a frame at a place.
pub open spec fn frame_pixel(i: int, frame_id: u32) -> u32 {
    turned(stirred(i), frame_id % 32) ^ 0x1234_5678
}

/// The pixel that goes to the card at a place.
pub fn card_pattern(i: u32) -> (p: u32)
    ensures
        p == card_pixel(i as int),
{
    stir(i) ^ 0x1234_5678
}

/// The pixel of a frame at a place.
pub fn frame_pattern(i: u32, frame_id: u32) -> (p: u32)
    ensures
        p == frame_pixel(i as int, frame_id),
{
    let by: u32 = frame_id % 32;
    let x: u32 = stir(i);
    let t: u32 = if by == 0 {
        x
    } else {
        (x << by) | (x >> (32 - by))
    };
    t ^ 0x1234_5678
}

/// The pixels that go to the card.
pub fn card_picture(n: u32) -> (v: Vec<u32>)
    ensures
        v@.len() == n,
        forall|i: int| 0 <= i < n ==> #[trigger] v@[i] == card_pixel(i),
{
    let mut v: Vec<u32> = Vec::new();
    let mut i: u32 = 0;
    while i < n
        invariant
            i <= n,
            v@.len() == i,
            forall|k: int| 0 <= k < i ==> #[trigger] v@[k] == card_pixel(k),
        decreases n - i,
    {
        v.push(card_pattern(i));
        i = i + 1;
    }
    v
}

/// The pixels of a frame.
pub fn frame_picture(n: u32, frame_id: u32) -> (v: Vec<u32>)
    ensures
        v@.len() == n,
        forall|i: int| 0 <= i < n ==> #[trigger] v@[i] == frame_pixel(i, frame_id),
{
    let mut v: Vec<u32> = Vec::new();
    let mut i: u32 = 0;
    while i < n
        invariant
            i <= n,
            v@.len() == i,
            forall|k: int| 0 <= k < i ==> #[trigger] v@[k] == frame_pixel(k, frame_id),
        decreases n - i,
    {
        v.push(frame_pattern(i, frame_id));
        i = i + 1;
    }
    v
}

/// A picture comes again after thirty-two frames.
pub proof fn law_frames_repeat_after_thirty_two(i: int, a: u32, b: u32)
    requires
        a % 32 == b % 32,
    ensures
        frame_pixel(i, a) == frame_pixel(i, b),
{
}

/// The exit code of the program that shows a picture on the card.
pub fn card_code(had_buffer: bool, presented: bool) -> (code: i32)
    ensures
        code == (if !had_buffer {
            10
        } else if !presented {
            11
        } else {
            OK_CODE
        }),
{
    if !had_buffer {
        10
    } else if !presented {
        11
    } else {
        OK_CODE
    }
}

/// The exit code of the program that draws: the compositor must have seen what was
/// drawn.
pub fn client_code(drawn: u32, seen: u32) -> (code: i32)
    ensures
        code == (if seen == drawn {
            OK_CODE
        } else {
            1
        }),
{
    if seen == drawn {
        OK_CODE
    } else {
        1
    }
}

/// The code of the compositor before it answers: nothing that it tried to give back may
/// have been taken, since none of it is its own, and the picture must be as it was.
/// `answers` are the kernel's, in which zero says that it was taken. Zero where all
/// is well.
pub fn server_code(answers: &Vec<u64>, before: u32, after: u32) -> (code: i32)
    ensures
        code == (if answers@.contains(0) {
            2
        } else if after != before {
            3
        } else {
            0i32
        }),
{
    let mut i: usize = 0;
    while i < answers.len()
        invariant
            i <= answers@.len(),
            forall|k: int| 0 <= k < i ==> #[trigger] answers@[k] != 0,
        decreases answers@.len() - i,
    {
        if answers[i] == 0 {
            assert(answers@[i as int] == 0);
            return 2;
        }
        i = i + 1;
    }
    if after != before {
        return 3;
    }
    0
}

/// Turning a number loses nothing: turned by so many bits and by as many as are left, it
/// is what it was, and turning it by none leaves it.
pub proof fn law_turning_loses_nothing(x: u32, by: u32)
    requires
        by < 32,
    ensures
        turned(x, 0) == x,
        by > 0 ==> turned(turned(x, by), (32 - by) as u32) == x,
{
    if by > 0 {
        let rest = (32 - by) as u32;
        assert(((((x << by) | (x >> rest)) << rest) | (((x << by) | (x >> rest)) >> by)) == x) by (bit_vector)
            requires
                0 < by < 32,
                rest + by == 32,
        ;
    }
}

/// The pixels of a picture are told apart: no two with numbers of 32 bits are alike, neither
/// on the card nor in any frame.
pub proof fn law_pixels_differ(i: u32, j: u32, frame_id: u32)
    requires
        i != j,
    ensures
        card_pixel(i as int) != card_pixel(j as int),
        frame_pixel(i as int, frame_id) != frame_pixel(j as int, frame_id),
{
    let a = stirred(i as int);
    let b = stirred(j as int);
    let by = frame_id % 32;
    assert((i as u64 * 0x9E37_79B1u64) % 0x1_0000_0000 == (j as u64 * 0x9E37_79B1u64) % 0x1_0000_0000 ==> i
        == j) by (bit_vector);
    assert(a != b);
    assert(a != b ==> a ^ 0x1234_5678 != b ^ 0x1234_5678) by (bit_vector);
    law_turning_loses_nothing(a, by);
    law_turning_loses_nothing(b, by);
    let c = turned(a, by);
    let d = turned(b, by);
    assert(c != d);
    assert(c != d ==> c ^ 0x1234_5678 != d ^ 0x1234_5678) by (bit_vector);
}

} // verus!
