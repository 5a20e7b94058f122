use vstd::prelude::*;

verus! {

/// Number of named buttons; the remaining high bits of `buttons` are reserved.
pub const BUTTON_COUNT: usize = 11;

/// A snapshot of one controller at one instant.
///
/// `timestamp` is a reading of a monotonic clock taken when the snapshot was
/// decoded; it orders snapshots and is never transmitted.
#[derive(Clone, Copy, Debug, PartialEq, Eq, Structural)]
pub struct ControllerState {
    pub id: u8,
    pub left_stick_x: i16,
    pub left_stick_y: i16,
    pub right_stick_x: i16,
    pub right_stick_y: i16,
    pub left_trigger: u8,
    pub right_trigger: u8,
    pub buttons: u16,
    pub dpad: u8,
    pub battery: u8,
    pub timestamp: u64,
}

/// The name of the button reported by bit `k` of the `buttons` field.
pub open spec fn button_name(k: int) -> Seq<char> {
    if k == 0 {
        seq!['A']
    } else if k == 1 {
        seq!['B']
    } else if k == 2 {
        seq!['X']
    } else if k == 3 {
        seq!['Y']
    } else if k == 4 {
        seq!['L', 'B']
    } else if k == 5 {
        seq!['R', 'B']
    } else if k == 6 {
        seq!['S', 'E', 'L', 'E', 'C', 'T']
    } else if k == 7 {
        seq!['S', 'T', 'A', 'R', 'T']
    } else if k == 8 {
        seq!['H', 'O', 'M', 'E']
    } else if k == 9 {
        seq!['L', 'S', 'B']
    } else {
        seq!['R', 'S', 'B']
    }
}

/// Whether bit `k` of `buttons` is set.
pub open spec fn bit_set(buttons: u16, k: int) -> bool {
    buttons & (1u16 << (k as u16)) != 0
}

/// The names of the pressed buttons among the first `n` bits, lowest bit first.
pub open spec fn pressed_names(buttons: u16, n: nat) -> Seq<Seq<char>>
    decreases n,
{
    if n == 0 {
        Seq::empty()
    } else {
        let before = pressed_names(buttons, (n - 1) as nat);
        if bit_set(buttons, n - 1) {
            before.push(button_name(n - 1))
        } else {
            before
        }
    }
}

fn button_label(k: usize) -> (r: &'static str)
    requires
        k < BUTTON_COUNT,
    ensures
        r@ == button_name(k as int),
{
    if k == 0 {
        proof { reveal_strlit("A"); }
        "A"
    } else if k == 1 {
        proof { reveal_strlit("B"); }
        "B"
    } else if k == 2 {
        proof { reveal_strlit("X"); }
        "X"
    } else if k == 3 {
        proof { reveal_strlit("Y"); }
        "Y"
    } else if k == 4 {
        proof { reveal_strlit("LB"); }
        "LB"
    } else if k == 5 {
        proof { reveal_strlit("RB"); }
        "RB"
    } else if k == 6 {
        proof { reveal_strlit("SELECT"); }
        "SELECT"
    } else if k == 7 {
        proof { reveal_strlit("START"); }
        "START"
    } else if k == 8 {
        proof { reveal_strlit("HOME"); }
        "HOME"
    } else if k == 9 {
        proof { reveal_strlit("LSB"); }
        "LSB"
    } else {
        proof { reveal_strlit("RSB"); }
        "RSB"
    }
}

/// Whether a stick is pushed beyond the dead zone on `axis`.
pub open spec fn beyond_dead_zone(axis: i16) -> bool {
    axis > 5000 || axis < -5000
}

fn beyond(axis: i16) -> (r: bool)
    ensures
        r == beyond_dead_zone(axis),
{
    axis > 5000 || axis < -5000
}

impl ControllerState {
    /// Whether the snapshot is worth reporting: some stick axis is beyond the
    /// dead zone (magnitude over 5000) or some button bit is set.
    pub fn has_significant_input(&self) -> (r: bool)
        ensures
            r == (beyond_dead_zone(self.left_stick_x) || beyond_dead_zone(self.left_stick_y)
                || beyond_dead_zone(self.right_stick_x) || beyond_dead_zone(self.right_stick_y)
                || self.buttons != 0),
    {
        beyond(self.left_stick_x) || beyond(self.left_stick_y) || beyond(self.right_stick_x)
            || beyond(self.right_stick_y) || self.buttons != 0
    }

    /// The names of the pressed buttons, in bit order from `A` (bit 0) to
    /// `RSB` (bit 10). Reserved high bits contribute nothing.
    pub fn get_button_names(&self) -> (r: Vec<&'static str>)
        ensures
            r@.map_values(|s: &'static str| s@) == pressed_names(self.buttons, BUTTON_COUNT as nat),
    {
        let mut pressed: Vec<&'static str> = Vec::new();
        let mut k: usize = 0;
        while k < BUTTON_COUNT
            invariant
                k <= BUTTON_COUNT,
                pressed@.map_values(|s: &'static str| s@) == pressed_names(self.buttons, k as nat),
            decreases BUTTON_COUNT - k,
        {
            let mask: u16 = 1u16 << (k as u16);
            if self.buttons & mask != 0 {
                let name = button_label(k);
                let ghost before = pressed@;
                pressed.push(name);
                assert(pressed@.map_values(|s: &'static str| s@) =~= before.map_values(
                    |s: &'static str| s@,
                ).push(name@));
            }
            k = k + 1;
        }
        pressed
    }
}

proof fn lemma_button_names_distinct(i: int, j: int)
    requires
        0 <= i < BUTTON_COUNT,
        0 <= j < BUTTON_COUNT,
        i != j,
    ensures
        button_name(i) != button_name(j),
{
    assert(button_name(i).len() != button_name(j).len() || button_name(i)[0] != button_name(j)[0]);
}

proof fn lemma_pressed_prefix(buttons: u16, n: nat, k: int)
    requires
        n <= BUTTON_COUNT,
        0 <= k < BUTTON_COUNT,
    ensures
        pressed_names(buttons, n).contains(button_name(k)) <==> (k < n && bit_set(buttons, k)),
    decreases n,
{
    if n > 0 {
        lemma_pressed_prefix(buttons, (n - 1) as nat, k);
        let before = pressed_names(buttons, (n - 1) as nat);
        if bit_set(buttons, n - 1) {
            let after = before.push(button_name(n - 1));
            if k == n - 1 {
                assert(after[after.len() - 1] == button_name(k));
            } else {
                lemma_button_names_distinct(k, n - 1);
                if after.contains(button_name(k)) {
                    let w = choose|w: int| 0 <= w < after.len() && after[w] == button_name(k);
                    assert(w < before.len());
                    assert(before[w] == button_name(k));
                }
                if before.contains(button_name(k)) {
                    let w = choose|w: int| 0 <= w < before.len() && before[w] == button_name(k);
                    assert(after[w] == button_name(k));
                }
            }
        }
    }
}

proof fn lemma_pressed_ignores_reserved(buttons: u16, n: nat)
    requires
        n <= BUTTON_COUNT,
    ensures
        pressed_names(buttons, n) == pressed_names(buttons & 0x7ff, n),
    decreases n,
{
    if n > 0 {
        lemma_pressed_ignores_reserved(buttons, (n - 1) as nat);
        let k: u16 = (n - 1) as u16;
        assert((buttons & 0x7ff) & (1u16 << k) == buttons & (1u16 << k)) by (bit_vector)
            requires
                k < 11,
        ;
    }
}

/// Whether `name` is the name of a button whose bit, among the first `n`, is set.
pub open spec fn names_pressed_button(buttons: u16, n: nat, name: Seq<char>) -> bool {
    exists|k: int| 0 <= k < n && bit_set(buttons, k) && name == #[trigger] button_name(k)
}

/// The pressed-button names match the set bits exactly: each named button is
/// listed if and only if its bit is set, and the reserved bits from `0x800`
/// upward are ignored.
pub proof fn lemma_button_names_match_bits(buttons: u16)
    ensures
        forall|k: int|
            0 <= k < BUTTON_COUNT ==> (#[trigger] pressed_names(
                buttons,
                BUTTON_COUNT as nat,
            ).contains(button_name(k)) <==> bit_set(buttons, k)),
        forall|i: int|
            0 <= i < pressed_names(buttons, BUTTON_COUNT as nat).len() ==> names_pressed_button(
                buttons,
                BUTTON_COUNT as nat,
                #[trigger] pressed_names(buttons, BUTTON_COUNT as nat)[i],
            ),
        pressed_names(buttons, BUTTON_COUNT as nat) == pressed_names(
            buttons & 0x7ff,
            BUTTON_COUNT as nat,
        ),
{
    assert forall|k: int| 0 <= k < BUTTON_COUNT implies (#[trigger] pressed_names(
        buttons,
        BUTTON_COUNT as nat,
    ).contains(button_name(k)) <==> bit_set(buttons, k)) by {
        lemma_pressed_prefix(buttons, BUTTON_COUNT as nat, k);
    }
    lemma_pressed_members(buttons, BUTTON_COUNT as nat);
    lemma_pressed_ignores_reserved(buttons, BUTTON_COUNT as nat);
}

proof fn lemma_pressed_members(buttons: u16, n: nat)
    requires
        n <= BUTTON_COUNT,
    ensures
        forall|i: int|
            0 <= i < pressed_names(buttons, n).len() ==> names_pressed_button(
                buttons,
                n,
                #[trigger] pressed_names(buttons, n)[i],
            ),
    decreases n,
{
    if n > 0 {
        lemma_pressed_members(buttons, (n - 1) as nat);
        let before = pressed_names(buttons, (n - 1) as nat);
        let after = pressed_names(buttons, n);
        assert forall|i: int| 0 <= i < after.len() implies names_pressed_button(
            buttons,
            n,
            #[trigger] after[i],
        ) by {
            if i < before.len() {
                assert(names_pressed_button(buttons, (n - 1) as nat, before[i]));
                assert(after[i] == before[i]);
            } else {
                assert(after[i] == button_name(n - 1));
            }
        }
    }
}

} // verus!
