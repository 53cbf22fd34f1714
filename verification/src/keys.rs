//! Which keys are held down, and what each of them does to the view.

use vstd::prelude::*;

verus! {

/// A keyboard key, as far as navigation cares: the keys that move or zoom
/// the view by name, every other key by its code.
#[derive(Clone, Copy, Debug, PartialEq, Eq, Structural)]
pub enum Key {
    W,
    K,
    Up,
    A,
    H,
    Left,
    S,
    J,
    Down,
    D,
    L,
    Right,
    Equals,
    Plus,
    Minus,
    Other(u32),
}

/// Whether a key went down or came up.
#[derive(Clone, Copy, Debug, PartialEq, Eq, Structural)]
pub enum KeyState {
    Pressed,
    Released,
}

/// What a held key does to the view on each update.
#[derive(Clone, Copy, Debug, PartialEq, Eq, Structural)]
pub enum Motion {
    PanUp,
    PanLeft,
    PanDown,
    PanRight,
    ZoomIn,
    ZoomOut,
    Stay,
}

impl Key {
    /// The motion bound to this key.
    pub open spec fn motion_spec(self) -> Motion {
        match self {
            Key::W | Key::K | Key::Up => Motion::PanUp,
            Key::A | Key::H | Key::Left => Motion::PanLeft,
            Key::S | Key::J | Key::Down => Motion::PanDown,
            Key::D | Key::L | Key::Right => Motion::PanRight,
            Key::Equals | Key::Plus => Motion::ZoomIn,
            Key::Minus => Motion::ZoomOut,
            Key::Other(_) => Motion::Stay,
        }
    }

    /// The motion bound to this key.
    pub fn motion(self) -> (m: Motion)
        ensures
            m == self.motion_spec(),
    {
        match self {
            Key::W | Key::K | Key::Up => Motion::PanUp,
            Key::A | Key::H | Key::Left => Motion::PanLeft,
            Key::S | Key::J | Key::Down => Motion::PanDown,
            Key::D | Key::L | Key::Right => Motion::PanRight,
            Key::Equals | Key::Plus => Motion::ZoomIn,
            Key::Minus => Motion::ZoomOut,
            Key::Other(_) => Motion::Stay,
        }
    }
}

/// The set of keys that are currently held down.
pub struct KeyHeld {
    keymap: Vec<Key>,
}

impl View for KeyHeld {
    type V = Set<Key>;

    closed spec fn view(&self) -> Set<Key> {
        self.keymap@.to_set()
    }
}

/// The held keys after an input event: a press adds the key, a release
/// removes it, and an event without a key changes nothing.
pub open spec fn after_input(held: Set<Key>, state: KeyState, key: Option<Key>) -> Set<Key> {
    match (state, key) {
        (KeyState::Pressed, Some(k)) => held.insert(k),
        (KeyState::Released, Some(k)) => held.remove(k),
        (_, None) => held,
    }
}

impl KeyHeld {
    /// No key is stored twice.
    pub closed spec fn wf(self) -> bool {
        self.keymap@.no_duplicates()
    }

    /// No key is held.
    pub fn new() -> (r: Self)
        ensures
            r.wf(),
            r@ == Set::<Key>::empty(),
    {
        let r = KeyHeld { keymap: Vec::new() };
        assert(r@ =~= Set::<Key>::empty());
        r
    }

    /// Where `code` is stored, if it is held.
    fn position(&self, code: Key) -> (r: Option<usize>)
        ensures
            match r {
                Some(i) => i < self.keymap@.len() && self.keymap@[i as int] == code,
                None => !self.keymap@.contains(code),
            },
    {
        let mut i: usize = 0;
        while i < self.keymap.len()
            invariant
                i <= self.keymap@.len(),
                forall|j: int| 0 <= j < i ==> self.keymap@[j] != code,
            decreases self.keymap@.len() - i,
        {
            if self.keymap[i] == code {
                return Some(i);
            }
            i += 1;
        }
        None
    }

    /// Records that `code` went down.
    pub fn key_pressed(&mut self, code: Key)
        requires
            old(self).wf(),
        ensures
            final(self).wf(),
            final(self)@ == old(self)@.insert(code),
    {
        match self.position(code) {
            Some(_) => {
                assert(self.keymap@.contains(code));
                assert(self@ =~= old(self)@.insert(code));
            },
            None => {
                self.keymap.push(code);
                proof {
                    let before = old(self).keymap@;
                    let after = self.keymap@;
                    assert forall|k: Key| after.contains(k) <==> (before.contains(k) || k
                        == code) by {
                        if before.contains(k) {
                            let i = choose|i: int| 0 <= i < before.len() && before[i] == k;
                            assert(after[i] == k);
                        }
                        if k == code {
                            assert(after[before.len() as int] == k);
                        }
                    }
                    assert(self@ =~= old(self)@.insert(code));
                }
            },
        }
    }

    /// Records that `code` came up.
    pub fn key_released(&mut self, code: &Key)
        requires
            old(self).wf(),
        ensures
            final(self).wf(),
            final(self)@ == old(self)@.remove(*code),
    {
        match self.position(*code) {
            Some(i) => {
                self.keymap.remove(i);
                proof {
                    let before = old(self).keymap@;
                    let after = self.keymap@;
                    before.remove_ensures(i as int);
                    assert forall|k: Key| after.contains(k) <==> (before.contains(k) && k
                        != *code) by {
                        if after.contains(k) {
                            let j = choose|j: int| 0 <= j < after.len() && after[j] == k;
                            if j < i {
                                assert(before[j] == k);
                            } else {
                                assert(before[j + 1] == k);
                            }
                        }
                        if before.contains(k) && k != *code {
                            let j = choose|j: int| 0 <= j < before.len() && before[j] == k;
                            if j < i {
                                assert(after[j] == k);
                            } else {
                                assert(after[j - 1] == k);
                            }
                        }
                    }
                    assert(self@ =~= old(self)@.remove(*code));
                }
            },
            None => {
                assert(self@ =~= old(self)@.remove(*code));
            },
        }
    }

    /// Takes in one keyboard event.
    pub fn give_input(&mut self, state: KeyState, key: Option<Key>)
        requires
            old(self).wf(),
        ensures
            final(self).wf(),
            final(self)@ == after_input(old(self)@, state, key),
    {
        match key {
            Some(k) => match state {
                KeyState::Pressed => self.key_pressed(k),
                KeyState::Released => self.key_released(&k),
            },
            None => {},
        }
    }

    /// The held keys, each of them once, in no particular order.
    pub fn iter(&self) -> (r: Vec<Key>)
        requires
            self.wf(),
        ensures
            r@.no_duplicates(),
            r@.to_set() == self@,
    {
        let mut out: Vec<Key> = Vec::new();
        let mut i: usize = 0;
        while i < self.keymap.len()
            invariant
                i <= self.keymap@.len(),
                out@ == self.keymap@.take(i as int),
            decreases self.keymap@.len() - i,
        {
            out.push(self.keymap[i]);
            i += 1;
            assert(out@ =~= self.keymap@.take(i as int));
        }
        assert(out@ =~= self.keymap@);
        out
    }
}

} // verus!
