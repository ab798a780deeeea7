//! The 16-key hexadecimal keypad: one pressed/released flag per key value
//! 0 through 0xF.

use vstd::prelude::*;

verus! {

/// Whether a key is currently held down.
pub enum KeyState {
    Pressed,
    Released,
}

/// A key of the 4x4 CHIP-8 pad together with its state. The variant fixes
/// which of the 16 logical key values is meant.
pub enum Key {
    One(KeyState),
    Two(KeyState),
    Three(KeyState),
    C(KeyState),
    Four(KeyState),
    Five(KeyState),
    Six(KeyState),
    D(KeyState),
    Seven(KeyState),
    Eight(KeyState),
    Nine(KeyState),
    E(KeyState),
    A(KeyState),
    Zero(KeyState),
    B(KeyState),
    F(KeyState),
}

/// The hexadecimal key value a variant stands for.
pub open spec fn spec_key_index(key: Key) -> int {
    match key {
        Key::Zero(_) => 0,
        Key::One(_) => 1,
        Key::Two(_) => 2,
        Key::Three(_) => 3,
        Key::Four(_) => 4,
        Key::Five(_) => 5,
        Key::Six(_) => 6,
        Key::Seven(_) => 7,
        Key::Eight(_) => 8,
        Key::Nine(_) => 9,
        Key::A(_) => 10,
        Key::B(_) => 11,
        Key::C(_) => 12,
        Key::D(_) => 13,
        Key::E(_) => 14,
        Key::F(_) => 15,
    }
}

/// Whether the state a key carries is `Pressed`.
pub open spec fn spec_key_pressed(key: Key) -> bool {
    match key {
        Key::Zero(s) => s == KeyState::Pressed,
        Key::One(s) => s == KeyState::Pressed,
        Key::Two(s) => s == KeyState::Pressed,
        Key::Three(s) => s == KeyState::Pressed,
        Key::Four(s) => s == KeyState::Pressed,
        Key::Five(s) => s == KeyState::Pressed,
        Key::Six(s) => s == KeyState::Pressed,
        Key::Seven(s) => s == KeyState::Pressed,
        Key::Eight(s) => s == KeyState::Pressed,
        Key::Nine(s) => s == KeyState::Pressed,
        Key::A(s) => s == KeyState::Pressed,
        Key::B(s) => s == KeyState::Pressed,
        Key::C(s) => s == KeyState::Pressed,
        Key::D(s) => s == KeyState::Pressed,
        Key::E(s) => s == KeyState::Pressed,
        Key::F(s) => s == KeyState::Pressed,
    }
}

/// 16 independent pressed/released flags, indexed by key value.
pub struct Keypad {
    keys: [bool; 16],
}

impl View for Keypad {
    type V = Seq<bool>;

    closed spec fn view(&self) -> Seq<bool> {
        self.keys@
    }
}

impl Keypad {
    /// A pad with every key released.
    pub fn new() -> (k: Keypad)
        ensures
            k@.len() == 16,
            forall|i: int| 0 <= i < 16 ==> !k@[i],
    {
        Keypad { keys: [false; 16] }
    }

    /// The key value the given key stands for, always below 16.
    pub fn key_to_index(&self, key: &Key) -> (r: usize)
        ensures
            r == spec_key_index(*key),
            r < 16,
    {
        match key {
            Key::Zero(_) => 0,
            Key::One(_) => 1,
            Key::Two(_) => 2,
            Key::Three(_) => 3,
            Key::Four(_) => 4,
            Key::Five(_) => 5,
            Key::Six(_) => 6,
            Key::Seven(_) => 7,
            Key::Eight(_) => 8,
            Key::Nine(_) => 9,
            Key::A(_) => 10,
            Key::B(_) => 11,
            Key::C(_) => 12,
            Key::D(_) => 13,
            Key::E(_) => 14,
            Key::F(_) => 15,
        }
    }

    /// Overwrites one key's slot with the state the given key carries.
    pub fn set_key(&mut self, key: Key)
        ensures
            final(self)@ == old(self)@.update(spec_key_index(key), spec_key_pressed(key)),
    {
        let index = self.key_to_index(&key);
        let pressed = match key {
            Key::Zero(s) => matches!(s, KeyState::Pressed),
            Key::One(s) => matches!(s, KeyState::Pressed),
            Key::Two(s) => matches!(s, KeyState::Pressed),
            Key::Three(s) => matches!(s, KeyState::Pressed),
            Key::Four(s) => matches!(s, KeyState::Pressed),
            Key::Five(s) => matches!(s, KeyState::Pressed),
            Key::Six(s) => matches!(s, KeyState::Pressed),
            Key::Seven(s) => matches!(s, KeyState::Pressed),
            Key::Eight(s) => matches!(s, KeyState::Pressed),
            Key::Nine(s) => matches!(s, KeyState::Pressed),
            Key::A(s) => matches!(s, KeyState::Pressed),
            Key::B(s) => matches!(s, KeyState::Pressed),
            Key::C(s) => matches!(s, KeyState::Pressed),
            Key::D(s) => matches!(s, KeyState::Pressed),
            Key::E(s) => matches!(s, KeyState::Pressed),
            Key::F(s) => matches!(s, KeyState::Pressed),
        };
        self.keys[index] = pressed;
    }

    /// Whether the slot of the key value that `key` stands for is pressed.
    /// The state carried inside `key` itself is ignored; only the stored
    /// slot is read.
    pub fn is_key_pressed(&self, key: &Key) -> (r: bool)
        ensures
            r == self@[spec_key_index(*key)],
    {
        let index = self.key_to_index(key);
        self.keys[index]
    }

    /// Whether the key with the given value is pressed.
    pub fn is_index_pressed(&self, index: usize) -> (r: bool)
        requires
            index < 16,
        ensures
            r == self@[index as int],
    {
        self.keys[index]
    }
}

} // verus!
