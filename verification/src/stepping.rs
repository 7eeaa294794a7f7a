//! What holds of the rotors' stepping.

use vstd::prelude::*;
use crate::enigma::Machine;
use crate::physical_rotor::{notches_of, KnownRotor};
use crate::rotor::{lemma_rotated_by, RotorState};

verus! {

/// A step turns rotors and changes nothing else: the machine stays well
/// formed, and wirings, ring settings, reflector and plugboard stay as they
/// were.
pub proof fn lemma_step_keeps(m: Machine)
    requires
        m.wf(),
    ensures
        m.stepped().wf(),
        m.stepped().reflector == m.reflector,
        m.stepped().plugboard == m.plugboard,
        m.stepped().reciprocal() == m.reciprocal(),
        m.stepped().left.wiring == m.left.wiring && m.stepped().left.ring == m.left.ring,
        m.stepped().middle.wiring == m.middle.wiring && m.stepped().middle.ring == m.middle.ring,
        m.stepped().right.wiring == m.right.wiring && m.stepped().right.ring == m.right.ring,
{
}

/// Any number of steps keeps what one step keeps.
pub proof fn lemma_steps_keep(m: Machine, k: nat)
    requires
        m.wf(),
    ensures
        m.stepped_by(k).wf(),
        m.stepped_by(k).reflector == m.reflector,
        m.stepped_by(k).plugboard == m.plugboard,
        m.stepped_by(k).reciprocal() == m.reciprocal(),
        m.stepped_by(k).left.wiring == m.left.wiring && m.stepped_by(k).left.ring == m.left.ring,
        m.stepped_by(k).middle.wiring == m.middle.wiring && m.stepped_by(k).middle.ring
            == m.middle.ring,
        m.stepped_by(k).right.wiring == m.right.wiring && m.stepped_by(k).right.ring
            == m.right.ring,
    decreases k,
{
    if k > 0 {
        lemma_steps_keep(m, (k - 1) as nat);
        lemma_step_keeps(m.stepped_by((k - 1) as nat));
    }
}

/// The step is decided by where the middle and the right rotor stand before
/// it, the middle rotor's notch first: with the middle rotor at a notch, the
/// left and the middle rotor turn; with only the right rotor at a notch, the
/// middle rotor turns and the left one rests; with neither, both rest. The
/// right rotor turns in every case.
pub proof fn lemma_step_rule(m: Machine)
    ensures
        m.stepped().right == m.right.rotated(),
        m.middle.at_notch() ==> m.stepped().middle == m.middle.rotated() && m.stepped().left
            == m.left.rotated(),
        !m.middle.at_notch() && m.right.at_notch() ==> m.stepped().middle == m.middle.rotated()
            && m.stepped().left == m.left,
        !m.middle.at_notch() && !m.right.at_notch() ==> m.stepped().middle == m.middle
            && m.stepped().left == m.left,
{
}

/// With the middle rotor at a notch before a step, that one step moves all
/// three rotors on by one position.
pub proof fn lemma_double_step(m: Machine)
    requires
        m.wf(),
        m.middle.at_notch(),
    ensures
        m.stepped().left.position == (m.left.position + 1) % 26,
        m.stepped().middle.position == (m.middle.position + 1) % 26,
        m.stepped().right.position == (m.right.position + 1) % 26,
{
}

/// The middle rotor turns in two steps running when the right rotor carries
/// it onto its own notch: the first step moves it there, the second moves it
/// on again and takes the left rotor along.
pub proof fn lemma_double_step_sequence(m: Machine)
    requires
        m.wf(),
        !m.middle.at_notch(),
        m.right.at_notch(),
        m.middle.rotated().at_notch(),
    ensures
        m.stepped().middle == m.middle.rotated(),
        m.stepped().left == m.left,
        m.stepped().stepped().middle == m.middle.rotated().rotated(),
        m.stepped().stepped().left == m.left.rotated(),
        m.stepped().stepped().right == m.right.rotated().rotated(),
{
}

/// The right rotor turns once in every step, whatever the others do.
pub proof fn lemma_right_rotor_steps(m: Machine, k: nat)
    ensures
        m.stepped_by(k).right == m.right.rotated_by(k),
    decreases k,
{
    if k > 0 {
        lemma_right_rotor_steps(m, (k - 1) as nat);
    }
}

/// The right rotor is back at its position after exactly 26 steps of the
/// machine, and after no fewer.
pub proof fn lemma_right_rotor_period(m: Machine, k: nat)
    requires
        m.wf(),
    ensures
        m.stepped_by(26).right == m.right,
        0 < k < 26 ==> m.stepped_by(k).right != m.right,
{
    lemma_right_rotor_steps(m, 26);
    lemma_right_rotor_steps(m, k);
    lemma_rotated_by(m.right, 26);
    lemma_rotated_by(m.right, k);
}

/// Whether a rotor carries its notches as the historical rotors do: one
/// notch at `p`, or two notches, at `p` and half a turn further on.
pub open spec fn notched(r: RotorState, p: int, two: bool) -> bool {
    if two {
        0 <= p < 13 && r.wiring.notches =~= set![p, p + 13]
    } else {
        r.wiring.notches =~= set![p]
    }
}

/// The notch of a historical rotor, or the first of its two.
pub open spec fn first_notch(known: KnownRotor) -> int {
    match known {
        KnownRotor::I => 16,
        KnownRotor::II => 4,
        KnownRotor::III => 21,
        KnownRotor::IV => 9,
        KnownRotor::V => 25,
        KnownRotor::VI => 12,
        KnownRotor::VII => 12,
        KnownRotor::VIII => 12,
        KnownRotor::IDENTITY => 0,
    }
}

/// Whether a historical rotor carries two notches.
pub open spec fn has_two_notches(known: KnownRotor) -> bool {
    known is VI || known is VII || known is VIII
}

/// Every historical rotor is notched in one of the two ways.
pub proof fn lemma_known_rotor_notched(r: RotorState, known: KnownRotor)
    requires
        r.wiring.notches == notches_of(known),
    ensures
        notched(r, first_notch(known), has_two_notches(known)),
{
}

/// The number of steps after which the rotors stand as before, by whether the
/// middle and the right rotor carry two notches. With one notch each it is
/// 26 x 25 x 26: the 26 positions of the left rotor, for each of them 25 of
/// the middle rotor, which passes one of its 26 positions in a double step,
/// and for each of those 26 of the right rotor. A second notch on a rotor
/// halves that rotor's share: 13 for the right rotor, 12 for the middle one.
pub open spec fn period(middle_two: bool, right_two: bool) -> int {
    if middle_two {
        if right_two {
            4056
        } else {
            8112
        }
    } else {
        if right_two {
            8450
        } else {
            16900
        }
    }
}

/// How far a rotor at `position` is past the position that follows `notch`,
/// counted round the 26 positions: 0 directly after the notch, 25 at it.
#[verifier::opaque]
pub open spec fn lag(position: int, notch: int) -> int {
    (position - notch - 1) % 26
}

/// A lag counted from the nearest notch behind: with two notches half a turn
/// apart, the lag within the half turn.
pub open spec fn fold(x: int, two: bool) -> int {
    if two {
        x % 13
    } else {
        x
    }
}

/// The folded lag at which a rotor stands at a notch.
pub open spec fn top(two: bool) -> int {
    if two {
        12
    } else {
        25
    }
}

/// Whether lags `x` of the middle and `y` of the right rotor are as stepping
/// leaves them: the middle rotor stands at a notch only while the right rotor
/// stands directly after one of its own, and the two do not both stand
/// directly after a notch.
pub open spec fn lags_in_cycle(x: int, y: int, middle_two: bool, right_two: bool) -> bool {
    let a = fold(x, middle_two);
    let b = fold(y, right_two);
    (a == top(middle_two) ==> b == 0) && !(a == 0 && b == 0)
}

/// The place in the cycle of a left rotor at position `l` with folded lags
/// `a` of the middle and `b` of the right rotor: the steps since the left
/// rotor stood at position 0 with the middle rotor directly after a notch and
/// the right rotor one step after one.
pub open spec fn folded_phase(l: int, a: int, b: int, middle_two: bool, right_two: bool) -> int {
    if middle_two {
        if right_two {
            156 * l + 13 * a + b - 1
        } else {
            312 * l + 26 * a + b - 1
        }
    } else {
        if right_two {
            325 * l + 13 * a + b - 1
        } else {
            650 * l + 26 * a + b - 1
        }
    }
}

/// What stepping never changes, besides wirings and ring settings: with two
/// notches on a rotor, which of its half turns the rotor is in (`hx` for the
/// middle, `hy` for the right rotor), taken together with how often the
/// rotors behind it have turned, as even or odd.
pub open spec fn folded_side(
    l: int,
    a: int,
    hx: int,
    hy: int,
    middle_two: bool,
    right_two: bool,
) -> (int, int) {
    (
        if middle_two {
            (hx + l) % 2
        } else {
            0
        },
        if right_two {
            if middle_two {
                (hy + a) % 2
            } else {
                (hy + a + l) % 2
            }
        } else {
            0
        },
    )
}

/// The place in the cycle, from the lags themselves.
pub open spec fn lags_phase(l: int, x: int, y: int, middle_two: bool, right_two: bool) -> int {
    folded_phase(l, fold(x, middle_two), fold(y, right_two), middle_two, right_two)
}

/// What stepping never changes, from the lags themselves.
pub open spec fn lags_side(l: int, x: int, y: int, middle_two: bool, right_two: bool) -> (int, int) {
    folded_side(l, fold(x, middle_two), x / 13, y / 13, middle_two, right_two)
}

/// Whether the rotors of `m` stand as stepping leaves them, for a middle
/// rotor notched at `p` and a right rotor notched at `q`.
pub open spec fn in_cycle(m: Machine, p: int, middle_two: bool, q: int, right_two: bool) -> bool {
    lags_in_cycle(lag(m.middle.position, p), lag(m.right.position, q), middle_two, right_two)
}

/// The place of the rotors of `m` in their cycle.
#[verifier::opaque]
pub open spec fn phase(m: Machine, p: int, middle_two: bool, q: int, right_two: bool) -> int {
    lags_phase(
        m.left.position,
        lag(m.middle.position, p),
        lag(m.right.position, q),
        middle_two,
        right_two,
    )
}

/// What stepping never changes of the rotors of `m`.
#[verifier::opaque]
pub open spec fn side(m: Machine, p: int, middle_two: bool, q: int, right_two: bool) -> (int, int) {
    lags_side(
        m.left.position,
        lag(m.middle.position, p),
        lag(m.right.position, q),
        middle_two,
        right_two,
    )
}

/// The lag stays below 26, tells where the notches are, and grows by one,
/// round the 26 positions, when the rotor turns.
proof fn lemma_lag(position: int, notch: int)
    requires
        0 <= position < 26,
        0 <= notch < 26,
    ensures
        0 <= lag(position, notch) < 26,
        lag(position, notch) == 25 <==> position == notch,
        notch < 13 ==> (lag(position, notch) == 12 <==> position == notch + 13),
        lag((position + 1) % 26, notch) == (lag(position, notch) + 1) % 26,
{
    reveal(lag);
}

/// Two positions with the same lag behind the same notch are the same.
proof fn lemma_lag_one_to_one(x: int, y: int, notch: int)
    requires
        0 <= x < 26,
        0 <= y < 26,
        0 <= notch < 26,
        lag(x, notch) == lag(y, notch),
    ensures
        x == y,
{
    reveal(lag);
}

/// What moving a rotor on by one position does to its folded lag and to the
/// half turn it is in.
proof fn lemma_fold_next(x: int, two: bool)
    requires
        0 <= x < 26,
    ensures
        0 <= fold(x, two) <= top(two),
        0 <= (x + 1) % 26 < 26,
        fold((x + 1) % 26, two) == if fold(x, two) == top(two) {
            0
        } else {
            fold(x, two) + 1
        },
        0 <= x / 13 <= 1,
        x == 13 * (x / 13) + x % 13,
        ((x + 1) % 26) / 13 == if x % 13 == 12 {
            1 - x / 13
        } else {
            x / 13
        },
{
}

/// One step, in numbers: the left rotor's position and the lags of the
/// middle and the right rotor, before the step and after it.
proof fn lemma_lags_step(
    l: int,
    x: int,
    y: int,
    l2: int,
    x2: int,
    y2: int,
    middle_two: bool,
    right_two: bool,
)
    requires
        0 <= l < 26,
        0 <= x < 26,
        0 <= y < 26,
        y2 == (y + 1) % 26,
        fold(x, middle_two) == top(middle_two) ==> l2 == (l + 1) % 26 && x2 == (x + 1) % 26,
        fold(x, middle_two) != top(middle_two) && fold(y, right_two) == top(right_two) ==> l2 == l
            && x2 == (x + 1) % 26,
        fold(x, middle_two) != top(middle_two) && fold(y, right_two) != top(right_two) ==> l2 == l
            && x2 == x,
    ensures
        fold(x2, middle_two) == top(middle_two) ==> fold(y2, right_two) == 0,
        lags_in_cycle(x, y, middle_two, right_two) ==> {
            &&& lags_in_cycle(x2, y2, middle_two, right_two)
            &&& 0 <= lags_phase(l, x, y, middle_two, right_two) < period(middle_two, right_two)
            &&& lags_phase(l2, x2, y2, middle_two, right_two) == (lags_phase(
                l,
                x,
                y,
                middle_two,
                right_two,
            ) + 1) % period(middle_two, right_two)
            &&& lags_side(l2, x2, y2, middle_two, right_two) == lags_side(
                l,
                x,
                y,
                middle_two,
                right_two,
            )
        },
        (fold(x, middle_two) == top(middle_two) ==> fold(y, right_two) == 0) ==> !(fold(
            x2,
            middle_two,
        ) == 0 && fold(y2, right_two) == 0),
{
    lemma_fold_next(x, middle_two);
    lemma_fold_next(y, right_two);
    lemma_fold_next(x2, middle_two);
    lemma_fold_next(y2, right_two);
    if lags_in_cycle(x, y, middle_two, right_two) {
        lemma_folded_step(
            l,
            fold(x, middle_two),
            fold(y, right_two),
            x / 13,
            y / 13,
            l2,
            fold(x2, middle_two),
            fold(y2, right_two),
            x2 / 13,
            y2 / 13,
            middle_two,
            right_two,
        );
    }
}

/// One step in the cycle, in folded lags and half turns.
proof fn lemma_folded_step(
    l: int,
    a: int,
    b: int,
    hx: int,
    hy: int,
    l2: int,
    a2: int,
    b2: int,
    hx2: int,
    hy2: int,
    middle_two: bool,
    right_two: bool,
)
    requires
        0 <= l < 26,
        0 <= a <= top(middle_two),
        0 <= b <= top(right_two),
        0 <= hx <= 1 && 0 <= hy <= 1,
        b2 == if b == top(right_two) {
            0
        } else {
            b + 1
        },
        right_two ==> hy2 == if b == 12 {
            1 - hy
        } else {
            hy
        },
        a == top(middle_two) ==> l2 == (l + 1) % 26 && a2 == 0 && (middle_two ==> hx2 == 1 - hx),
        a != top(middle_two) && b == top(right_two) ==> l2 == l && a2 == a + 1 && (middle_two
            ==> hx2 == hx),
        a != top(middle_two) && b != top(right_two) ==> l2 == l && a2 == a && (middle_two ==> hx2
            == hx),
        a == top(middle_two) ==> b == 0,
        !(a == 0 && b == 0),
    ensures
        0 <= folded_phase(l, a, b, middle_two, right_two) < period(middle_two, right_two),
        folded_phase(l2, a2, b2, middle_two, right_two) == (folded_phase(
            l,
            a,
            b,
            middle_two,
            right_two,
        ) + 1) % period(middle_two, right_two),
        folded_side(l2, a2, hx2, hy2, middle_two, right_two) == folded_side(
            l,
            a,
            hx,
            hy,
            middle_two,
            right_two,
        ),
{
}

/// In the cycle, phase and side tell the left rotor's position and both lags.
proof fn lemma_lags_one_to_one(
    l: int,
    x: int,
    y: int,
    l2: int,
    x2: int,
    y2: int,
    middle_two: bool,
    right_two: bool,
)
    requires
        0 <= l < 26 && 0 <= l2 < 26,
        0 <= x < 26 && 0 <= x2 < 26,
        0 <= y < 26 && 0 <= y2 < 26,
        lags_in_cycle(x, y, middle_two, right_two),
        lags_in_cycle(x2, y2, middle_two, right_two),
        lags_phase(l2, x2, y2, middle_two, right_two) == lags_phase(l, x, y, middle_two, right_two),
        lags_side(l2, x2, y2, middle_two, right_two) == lags_side(l, x, y, middle_two, right_two),
    ensures
        l2 == l,
        x2 == x,
        y2 == y,
{
}

/// Counting on by one after counting on by `k - 1` is counting on by `k`,
/// round the period.
proof fn lemma_add_round(x: int, k: int, middle_two: bool, right_two: bool)
    requires
        0 <= x,
        1 <= k,
    ensures
        ((x + k - 1) % period(middle_two, right_two) + 1) % period(middle_two, right_two) == (x
            + k) % period(middle_two, right_two),
{
}

/// A rotor stands at a notch exactly when its folded lag is at the top.
proof fn lemma_at_notch(m: Machine, p: int, middle_two: bool, q: int, right_two: bool)
    requires
        m.wf(),
        notched(m.middle, p, middle_two),
        notched(m.right, q, right_two),
    ensures
        0 <= p < 26,
        0 <= q < 26,
        0 <= lag(m.middle.position, p) < 26,
        0 <= lag(m.right.position, q) < 26,
        m.middle.at_notch() <==> fold(lag(m.middle.position, p), middle_two) == top(middle_two),
        m.right.at_notch() <==> fold(lag(m.right.position, q), right_two) == top(right_two),
{
    assert(m.middle.wiring.notches.contains(p));
    assert(m.right.wiring.notches.contains(q));
    lemma_lag(m.middle.position, p);
    lemma_lag(m.right.position, q);
}

/// What one step does to the lags.
proof fn lemma_step_lags(m: Machine, p: int, middle_two: bool, q: int, right_two: bool)
    requires
        m.wf(),
        notched(m.middle, p, middle_two),
        notched(m.right, q, right_two),
    ensures
        ({
            let n = m.stepped();
            let x = lag(m.middle.position, p);
            let y = lag(m.right.position, q);
            let x2 = lag(n.middle.position, p);
            let y2 = lag(n.right.position, q);
            let a = fold(x, middle_two);
            let b = fold(y, right_two);
            &&& 0 <= x < 26 && 0 <= y < 26
            &&& y2 == (y + 1) % 26
            &&& a == top(middle_two) ==> n.left.position == (m.left.position + 1) % 26 && x2 == (x
                + 1) % 26
            &&& a != top(middle_two) && b == top(right_two) ==> n.left.position == m.left.position
                && x2 == (x + 1) % 26
            &&& a != top(middle_two) && b != top(right_two) ==> n.left.position == m.left.position
                && x2 == x
        }),
{
    lemma_at_notch(m, p, middle_two, q, right_two);
    lemma_lag(m.middle.position, p);
    lemma_lag(m.right.position, q);
}

/// After two steps from anywhere the rotors stand in their cycle.
pub proof fn lemma_enters_cycle(m: Machine, p: int, middle_two: bool, q: int, right_two: bool)
    requires
        m.wf(),
        notched(m.middle, p, middle_two),
        notched(m.right, q, right_two),
    ensures
        in_cycle(m.stepped().stepped(), p, middle_two, q, right_two),
{
    let m1 = m.stepped();
    let m2 = m1.stepped();
    lemma_step_keeps(m);
    lemma_step_keeps(m1);
    lemma_step_lags(m, p, middle_two, q, right_two);
    lemma_step_lags(m1, p, middle_two, q, right_two);
    lemma_lags_step(
        m.left.position,
        lag(m.middle.position, p),
        lag(m.right.position, q),
        m1.left.position,
        lag(m1.middle.position, p),
        lag(m1.right.position, q),
        middle_two,
        right_two,
    );
    lemma_lags_step(
        m1.left.position,
        lag(m1.middle.position, p),
        lag(m1.right.position, q),
        m2.left.position,
        lag(m2.middle.position, p),
        lag(m2.right.position, q),
        middle_two,
        right_two,
    );
}

/// In the cycle each step moves the phase on by one, the last phase is
/// followed by the first, and the side stays.
pub proof fn lemma_step_in_cycle(m: Machine, p: int, middle_two: bool, q: int, right_two: bool)
    requires
        m.wf(),
        notched(m.middle, p, middle_two),
        notched(m.right, q, right_two),
        in_cycle(m, p, middle_two, q, right_two),
    ensures
        in_cycle(m.stepped(), p, middle_two, q, right_two),
        0 <= phase(m, p, middle_two, q, right_two) < period(middle_two, right_two),
        phase(m.stepped(), p, middle_two, q, right_two) == (phase(m, p, middle_two, q, right_two)
            + 1) % period(middle_two, right_two),
        side(m.stepped(), p, middle_two, q, right_two) == side(m, p, middle_two, q, right_two),
{
    let n = m.stepped();
    lemma_step_lags(m, p, middle_two, q, right_two);
    reveal(phase);
    reveal(side);
    lemma_lags_step(
        m.left.position,
        lag(m.middle.position, p),
        lag(m.right.position, q),
        n.left.position,
        lag(n.middle.position, p),
        lag(n.right.position, q),
        middle_two,
        right_two,
    );
}

/// In the cycle `k` steps move the phase on by `k` and keep the side.
pub proof fn lemma_steps_in_cycle(
    m: Machine,
    p: int,
    middle_two: bool,
    q: int,
    right_two: bool,
    k: nat,
)
    requires
        m.wf(),
        notched(m.middle, p, middle_two),
        notched(m.right, q, right_two),
        in_cycle(m, p, middle_two, q, right_two),
    ensures
        in_cycle(m.stepped_by(k), p, middle_two, q, right_two),
        phase(m.stepped_by(k), p, middle_two, q, right_two) == (phase(m, p, middle_two, q, right_two)
            + k) % period(middle_two, right_two),
        side(m.stepped_by(k), p, middle_two, q, right_two) == side(m, p, middle_two, q, right_two),
    decreases k,
{
    lemma_step_in_cycle(m, p, middle_two, q, right_two);
    if k > 0 {
        let before = m.stepped_by((k - 1) as nat);
        lemma_steps_in_cycle(m, p, middle_two, q, right_two, (k - 1) as nat);
        lemma_steps_keep(m, (k - 1) as nat);
        lemma_step_in_cycle(before, p, middle_two, q, right_two);
        lemma_add_round(phase(m, p, middle_two, q, right_two), k as int, middle_two, right_two);
    }
}

/// In the cycle phase and side tell the positions: two machines that differ
/// in their rotors' positions at most and agree in phase and side are the
/// same.
pub proof fn lemma_phase_tells_positions(
    m: Machine,
    n: Machine,
    p: int,
    middle_two: bool,
    q: int,
    right_two: bool,
)
    requires
        m.wf(),
        n.wf(),
        notched(m.middle, p, middle_two),
        notched(m.right, q, right_two),
        in_cycle(m, p, middle_two, q, right_two),
        in_cycle(n, p, middle_two, q, right_two),
        n.reflector == m.reflector,
        n.plugboard == m.plugboard,
        n.left.wiring == m.left.wiring && n.left.ring == m.left.ring,
        n.middle.wiring == m.middle.wiring && n.middle.ring == m.middle.ring,
        n.right.wiring == m.right.wiring && n.right.ring == m.right.ring,
        phase(n, p, middle_two, q, right_two) == phase(m, p, middle_two, q, right_two),
        side(n, p, middle_two, q, right_two) == side(m, p, middle_two, q, right_two),
    ensures
        n == m,
{
    lemma_at_notch(m, p, middle_two, q, right_two);
    lemma_at_notch(n, p, middle_two, q, right_two);
    reveal(phase);
    reveal(side);
    lemma_lags_one_to_one(
        m.left.position,
        lag(m.middle.position, p),
        lag(m.right.position, q),
        n.left.position,
        lag(n.middle.position, p),
        lag(n.right.position, q),
        middle_two,
        right_two,
    );
    lemma_lag_one_to_one(n.middle.position, m.middle.position, p);
    lemma_lag_one_to_one(n.right.position, m.right.position, q);
}

/// Once its keys have been pressed twice, a machine whose middle and right
/// rotor are notched as the historical rotors are goes round a cycle: after
/// `period` steps, and after no fewer, every rotor is back at its position.
/// That is never more than 26 x 25 x 26 steps.
pub proof fn lemma_full_period(
    start: Machine,
    p: int,
    middle_two: bool,
    q: int,
    right_two: bool,
    k: nat,
)
    requires
        start.wf(),
        notched(start.middle, p, middle_two),
        notched(start.right, q, right_two),
    ensures
        0 < period(middle_two, right_two) <= 26 * 25 * 26,
        ({
            let m = start.stepped().stepped();
            &&& m.stepped_by(period(middle_two, right_two) as nat) == m
            &&& 0 < k < period(middle_two, right_two) ==> m.stepped_by(k) != m
        }),
{
    let m = start.stepped().stepped();
    lemma_step_keeps(start);
    lemma_step_keeps(start.stepped());
    lemma_enters_cycle(start, p, middle_two, q, right_two);
    lemma_step_in_cycle(m, p, middle_two, q, right_two);
    let full = period(middle_two, right_two);
    let at = phase(m, p, middle_two, q, right_two);
    lemma_steps_in_cycle(m, p, middle_two, q, right_two, full as nat);
    assert((at + full) % full == at);
    lemma_steps_keep(m, full as nat);
    lemma_phase_tells_positions(m, m.stepped_by(full as nat), p, middle_two, q, right_two);
    lemma_steps_in_cycle(m, p, middle_two, q, right_two, k);
    if 0 < k < full {
        assert((at + k) % full != at);
    }
}

} // verus!
