//! Input events, key names and the keyboard and mouse state that the platform's events feed.

use vstd::prelude::*;
use vstd::string::StrSliceExecFns;
use vstd::string::StringExecFns;

use crate::queue::{
    queue_add, queue_events, queue_new, queue_remove, ring_add, ring_capacity, ring_events,
    ring_new, ring_refills, ring_remove,
};

verus! {

/// An input event, in the order in which it arrived.
#[derive(Clone, Debug, PartialEq, Eq)]
pub enum Event {
    KeyDown(KeyCodeEvent),
    KeyUp(KeyCodeEvent),
    /// Text that was typed: one character, or what an input method composed.
    Char(String),
    MouseDown(MouseEvent),
    MouseUp(MouseEvent),
}

/// A key press or release, named by the physical key code (`"KeyA"`, `"ShiftLeft"`).
#[derive(Clone, Debug, PartialEq, Eq)]
pub struct KeyCodeEvent {
    pub key_code: String,
    pub ctrl_down: bool,
    pub shift_down: bool,
    pub alt_down: bool,
}

/// A mouse button press or release at a position on the drawing surface.
#[derive(Clone, Copy, Debug, PartialEq, Eq, Structural)]
pub struct MouseEvent {
    pub x: i32,
    pub y: i32,
    pub button: MouseButton,
    pub ctrl_down: bool,
    pub shift_down: bool,
}

/// Which mouse button an event is about.
#[derive(Clone, Copy, Debug, PartialEq, Eq, Structural)]
pub enum MouseButton {
    Left,
    Right,
    Middle,
    Back,
    Forward,
}

/// The button that a DOM `MouseEvent.button` code names.
pub open spec fn button_of_code(code: i16) -> MouseButton {
    if code == 1 {
        MouseButton::Middle
    } else if code == 2 {
        MouseButton::Right
    } else if code == 3 {
        MouseButton::Back
    } else if code == 4 {
        MouseButton::Forward
    } else {
        MouseButton::Left
    }
}

/// Maps a DOM button code to a button: 0 is the main button, 1 the wheel, 2 the secondary
/// button, 3 and 4 the back and forward buttons; any other code counts as the main button.
pub fn mouse_button(code: i16) -> (b: MouseButton)
    ensures
        b == button_of_code(code),
{
    match code {
        0 => MouseButton::Left,
        1 => MouseButton::Middle,
        2 => MouseButton::Right,
        3 => MouseButton::Back,
        4 => MouseButton::Forward,
        _ => MouseButton::Left,
    }
}

/// The physical key codes that a key name stands for: a modifier names both its left and its
/// right key, a single ASCII digit or letter names its `Digit` or `Key` code, and any other
/// name is taken as a key code already.
pub open spec fn denormalised(k: Seq<char>) -> Seq<Seq<char>> {
    if k == "Shift"@ {
        seq!["ShiftLeft"@, "ShiftRight"@]
    } else if k == "Control"@ {
        seq!["ControlLeft"@, "ControlRight"@]
    } else if k == "Alt"@ {
        seq!["AltLeft"@, "AltRight"@]
    } else if k.len() == 1 && (k[0] as u32) < 0x80 {
        if '0' <= k[0] && k[0] <= '9' {
            seq!["Digit"@ + k]
        } else {
            seq!["Key"@ + k]
        }
    } else {
        seq![k]
    }
}

/// Whether two strings hold the same characters.
fn same_chars(a: &str, b: &str) -> (r: bool)
    ensures
        r == (a@ == b@),
{
    let n = a.unicode_len();
    if n != b.unicode_len() {
        return false;
    }
    let mut i: usize = 0;
    while i < n
        invariant
            n == a@.len(),
            n == b@.len(),
            i <= n,
            a@.subrange(0, i as int) == b@.subrange(0, i as int),
        decreases n - i,
    {
        if a.get_char(i) != b.get_char(i) {
            return false;
        }
        assert(a@.subrange(0, i + 1) == a@.subrange(0, i as int).push(a@[i as int]));
        assert(b@.subrange(0, i + 1) == b@.subrange(0, i as int).push(b@[i as int]));
        i = i + 1;
    }
    assert(a@ == a@.subrange(0, n as int));
    assert(b@ == b@.subrange(0, n as int));
    true
}

/// Expands a key name into the physical key codes that it stands for (see [`denormalised`]).
pub fn denormalise(key_code: &str) -> (r: Vec<String>)
    ensures
        r@.len() == denormalised(key_code@).len(),
        forall|i: int| 0 <= i < r@.len() ==> #[trigger] r@[i]@ == denormalised(key_code@)[i],
{
    if same_chars(key_code, "Shift") {
        vec!["ShiftLeft".to_string(), "ShiftRight".to_string()]
    } else if same_chars(key_code, "Control") {
        vec!["ControlLeft".to_string(), "ControlRight".to_string()]
    } else if same_chars(key_code, "Alt") {
        vec!["AltLeft".to_string(), "AltRight".to_string()]
    } else if key_code.unicode_len() == 1 && (key_code.get_char(0) as u32) < 0x80 {
        let c = key_code.get_char(0);
        if '0' <= c && c <= '9' {
            vec!["Digit".to_string().concat(key_code)]
        } else {
            vec!["Key".to_string().concat(key_code)]
        }
    } else {
        vec![key_code.to_string()]
    }
}

/// `e` reports a key press (`down`) or release of `code` with the given modifiers.
pub open spec fn is_key_event(
    e: Event,
    down: bool,
    code: Seq<char>,
    ctrl: bool,
    shift: bool,
    alt: bool,
) -> bool {
    match e {
        Event::KeyDown(k) => down && k.key_code@ == code && k.ctrl_down == ctrl && k.shift_down
            == shift && k.alt_down == alt,
        Event::KeyUp(k) => !down && k.key_code@ == code && k.ctrl_down == ctrl && k.shift_down
            == shift && k.alt_down == alt,
        _ => false,
    }
}

/// `e` reports typed text `text`.
pub open spec fn is_char_event(e: Event, text: Seq<char>) -> bool {
    match e {
        Event::Char(s) => s@ == text,
        _ => false,
    }
}

/// The text that a key press types: a line feed for Enter, the key itself where it is a
/// single character, nothing while an input method is composing.
pub open spec fn typed_text(key: Seq<char>, is_composing: bool) -> Option<Seq<char>> {
    if is_composing {
        None
    } else if key == "Enter"@ {
        Some("\n"@)
    } else if key.len() == 1 {
        Some(key)
    } else {
        None
    }
}

/// The events after `e` arrives: it goes to the back, and where a bound is set and already
/// reached, the oldest event is dropped.
pub open spec fn enqueue(events: Seq<Event>, max_events: Option<usize>, e: Event) -> Seq<Event> {
    match max_events {
        Some(m) => if events.len() < m {
            events.push(e)
        } else {
            events.push(e).drop_first()
        },
        None => events.push(e),
    }
}

/// The pending events, kept in a circular buffer where their number is bounded.
enum EventQueue {
    Bounded(queues::CircularBuffer<Event>),
    Unbounded(queues::Queue<Event>),
}

impl EventQueue {
    spec fn events(&self) -> Seq<Event> {
        match self {
            EventQueue::Bounded(b) => ring_events(*b),
            EventQueue::Unbounded(q) => queue_events(*q),
        }
    }

    /// The queue holds events the way its bound says.
    spec fn wf(&self, max_events: Option<usize>) -> bool {
        match self {
            EventQueue::Bounded(b) => max_events == Some(ring_capacity(*b) as usize)
                && ring_capacity(*b) <= usize::MAX && !ring_refills(*b),
            EventQueue::Unbounded(_) => max_events is None,
        }
    }

    /// An empty queue: bounded by `max_events` where it is given.
    fn new(max_events: Option<usize>) -> (r: EventQueue)
        ensures
            r.events() == Seq::<Event>::empty(),
            r.wf(max_events),
    {
        match max_events {
            Some(m) => EventQueue::Bounded(ring_new(m)),
            None => EventQueue::Unbounded(queue_new()),
        }
    }

    fn add(&mut self, e: Event, Ghost(max_events): Ghost<Option<usize>>)
        requires
            old(self).wf(max_events),
        ensures
            final(self).wf(max_events),
            final(self).events() == enqueue(old(self).events(), max_events, e),
    {
        match self {
            EventQueue::Bounded(b) => ring_add(b, e),
            EventQueue::Unbounded(q) => queue_add(q, e),
        }
    }

    /// Takes the oldest event, if any.
    fn remove(&mut self, Ghost(max_events): Ghost<Option<usize>>) -> (r: Option<Event>)
        requires
            old(self).wf(max_events),
        ensures
            final(self).wf(max_events),
            old(self).events().len() > 0 ==> r == Some(old(self).events()[0]) && final(self).events() == old(self).events().drop_first(),
            old(self).events().len() == 0 ==> r is None && final(self).events() == old(self).events(),
    {
        match self {
            EventQueue::Bounded(b) => ring_remove(b),
            EventQueue::Unbounded(q) => queue_remove(q),
        }
    }
}

/// The state of a key, by the last record of it (none: never pressed).
pub open spec fn key_lookup(states: Seq<(String, bool)>, code: Seq<char>) -> Option<bool>
    decreases states.len(),
{
    if states.len() == 0 {
        None
    } else if states.last().0@ == code {
        Some(states.last().1)
    } else {
        key_lookup(states.drop_last(), code)
    }
}

/// Setting the entry at `i`, which records `k`, to `down` records `k` as `down` and leaves
/// the other keys as they were, where no later entry records `k`.
pub proof fn lemma_key_lookup_set(
    states: Seq<(String, bool)>,
    i: int,
    k: Seq<char>,
    s: String,
    down: bool,
)
    requires
        0 <= i < states.len(),
        states[i].0@ == k,
        s@ == k,
        forall|j: int| i < j < states.len() ==> (#[trigger] states[j]).0@ != k,
    ensures
        forall|c: Seq<char>|
            #[trigger] key_lookup(states.update(i, (s, down)), c) == if c == k {
                Some(down)
            } else {
                key_lookup(states, c)
            },
    decreases states.len(),
{
    let t = states.update(i, (s, down));
    if i == states.len() - 1 {
        assert(t.drop_last() =~= states.drop_last());
        assert forall|c: Seq<char>| #[trigger] key_lookup(t, c) == if c == k {
            Some(down)
        } else {
            key_lookup(states, c)
        } by {
            assert(t.last() == (s, down));
        }
    } else {
        let d = states.drop_last();
        assert forall|j: int| i < j < d.len() implies (#[trigger] d[j]).0@ != k by {
            assert(d[j] == states[j]);
        }
        lemma_key_lookup_set(d, i, k, s, down);
        assert(t.drop_last() =~= d.update(i, (s, down)));
        assert(t.last() == states.last());
        assert(states.last().0@ != k);
        assert forall|c: Seq<char>| #[trigger] key_lookup(t, c) == if c == k {
            Some(down)
        } else {
            key_lookup(states, c)
        } by {
            assert(key_lookup(t.drop_last(), c) == key_lookup(d.update(i, (s, down)), c));
        }
    }
}

/// Adding an entry for a key that no entry records records it and changes nothing else.
pub proof fn lemma_key_lookup_absent(states: Seq<(String, bool)>, k: Seq<char>)
    ensures
        forall|c: Seq<char>, s: String, down: bool|
            s@ == k ==> #[trigger] key_lookup(states.push((s, down)), c) == if c == k {
                Some(down)
            } else {
                key_lookup(states, c)
            },
{
    assert forall|c: Seq<char>, s: String, down: bool| s@ == k implies #[trigger] key_lookup(
        states.push((s, down)),
        c,
    ) == if c == k {
        Some(down)
    } else {
        key_lookup(states, c)
    } by {
        assert(states.push((s, down)).drop_last() =~= states);
    }
}

/// What the input state holds, as plain values.
pub struct InputView {
    /// Whether each key that has been pressed or released is down now.
    pub keys: Map<Seq<char>, bool>,
    /// The mouse position on the drawing surface, while the mouse is over it.
    pub mouse: Option<(i32, i32)>,
    /// The events not yet taken, oldest first.
    pub events: Seq<Event>,
    pub max_events: Option<usize>,
}

/// Keyboard and mouse state fed by the platform's input events, and the queue of events that
/// the program has not taken yet.
pub struct Input {
    key_states: Vec<(String, bool)>,
    mouse_pos: Option<(i32, i32)>,
    events: EventQueue,
    max_events: Option<usize>,
}

impl View for Input {
    type V = InputView;

    closed spec fn view(&self) -> InputView {
        InputView {
            keys: Map::new(
                |k: Seq<char>| key_lookup(self.key_states@, k) is Some,
                |k: Seq<char>| key_lookup(self.key_states@, k)->Some_0,
            ),
            mouse: self.mouse_pos,
            events: self.events.events(),
            max_events: self.max_events,
        }
    }
}

impl Input {
    #[verifier::type_invariant]
    spec fn inv(&self) -> bool {
        self.events.wf(self.max_events)
    }

    /// Empty input state; at most `max_events` events are kept where it is given (the oldest
    /// give way).
    pub fn new(max_events: Option<usize>) -> (r: Input)
        ensures
            r@.keys == Map::<Seq<char>, bool>::empty(),
            r@.mouse is None,
            r@.events == Seq::<Event>::empty(),
            r@.max_events == max_events,
    {
        let r = Input {
            key_states: Vec::new(),
            mouse_pos: None,
            events: Self::new_key_events(max_events),
            max_events,
        };
        assert(r@.keys =~= Map::<Seq<char>, bool>::empty());
        r
    }

    /// An empty event queue, bounded where `max_events` is given.
    fn new_key_events(max_events: Option<usize>) -> (r: EventQueue)
        ensures
            r.events() == Seq::<Event>::empty(),
            r.wf(max_events),
    {
        EventQueue::new(max_events)
    }

    /// Whether the key with physical code `key` is down.
    pub fn key_down_raw(&self, key: &str) -> (r: bool)
        ensures
            r == (self@.keys.contains_key(key@) && self@.keys[key@]),
    {
        let mut i = self.key_states.len();
        assert(self.key_states@.take(i as int) =~= self.key_states@);
        while i > 0
            invariant
                i <= self.key_states@.len(),
                key_lookup(self.key_states@, key@) == key_lookup(
                    self.key_states@.take(i as int),
                    key@,
                ),
            decreases i,
        {
            let ghost pre = self.key_states@.take(i as int);
            assert(pre.drop_last() == self.key_states@.take(i - 1));
            if same_chars(self.key_states[i - 1].0.as_str(), key) {
                return self.key_states[i - 1].1;
            }
            i = i - 1;
        }
        assert(self.key_states@.take(0) =~= Seq::<(String, bool)>::empty());
        false
    }

    /// Whether a key that the name `key` stands for is down (see [`denormalised`]).
    pub fn key_down(&self, key: &str) -> (r: bool)
        ensures
            r == exists|i: int|
                0 <= i < denormalised(key@).len() && self@.keys.contains_key(
                    #[trigger] denormalised(key@)[i],
                ) && self@.keys[denormalised(key@)[i]],
    {
        let codes = denormalise(key);
        let mut i: usize = 0;
        while i < codes.len()
            invariant
                i <= codes@.len(),
                codes@.len() == denormalised(key@).len(),
                forall|j: int| 0 <= j < codes@.len() ==> #[trigger] codes@[j]@ == denormalised(key@)[j],
                forall|j: int|
                    0 <= j < i ==> !(self@.keys.contains_key(#[trigger] denormalised(key@)[j])
                        && self@.keys[denormalised(key@)[j]]),
            decreases codes@.len() - i,
        {
            if self.key_down_raw(codes[i].as_str()) {
                return true;
            }
            i = i + 1;
        }
        false
    }

    /// The mouse position, while the mouse is over the drawing surface.
    pub fn get_mouse_pos(&self) -> (r: Option<(i32, i32)>)
        ensures
            r == self@.mouse,
    {
        self.mouse_pos
    }

    pub fn get_mouse_x(&self) -> (r: Option<i32>)
        ensures
            r == (match self@.mouse {
                Some((x, _)) => Some(x),
                None => None,
            }),
    {
        match self.mouse_pos {
            Some((x, _)) => Some(x),
            None => None,
        }
    }

    pub fn get_mouse_y(&self) -> (r: Option<i32>)
        ensures
            r == (match self@.mouse {
                Some((_, y)) => Some(y),
                None => None,
            }),
    {
        match self.mouse_pos {
            Some((_, y)) => Some(y),
            None => None,
        }
    }

    /// Drops every pending event.
    pub fn clear_events(&mut self)
        ensures
            final(self)@.events == Seq::<Event>::empty(),
            final(self)@.keys == old(self)@.keys,
            final(self)@.mouse == old(self)@.mouse,
            final(self)@.max_events == old(self)@.max_events,
    {
        self.events = Self::new_key_events(self.max_events);
    }

    /// Takes the oldest pending event, if any.
    pub fn next(&mut self) -> (r: Option<Event>)
        ensures
            old(self)@.events.len() > 0 ==> r == Some(old(self)@.events[0]) && final(self)@.events
                == old(self)@.events.drop_first(),
            old(self)@.events.len() == 0 ==> r is None && final(self)@.events == old(self)@.events,
            final(self)@.keys == old(self)@.keys,
            final(self)@.mouse == old(self)@.mouse,
            final(self)@.max_events == old(self)@.max_events,
    {
        proof {
            use_type_invariant(&*self);
        }
        let m = Ghost(self.max_events);
        let mut q = Self::new_key_events(self.max_events);
        std::mem::swap(&mut self.events, &mut q);
        let r = q.remove(m);
        std::mem::swap(&mut self.events, &mut q);
        r
    }

    /// Records whether the key `code` is down.
    fn set_key(&mut self, code: String, down: bool)
        ensures
            final(self)@.keys == old(self)@.keys.insert(code@, down),
            final(self)@.events == old(self)@.events,
            final(self)@.mouse == old(self)@.mouse,
            final(self)@.max_events == old(self)@.max_events,
    {
        proof {
            use_type_invariant(&*self);
        }
        let ghost old_states = self.key_states@;
        let ghost k = code@;
        let mut i = self.key_states.len();
        while i > 0
            invariant
                self.events.wf(self.max_events),
                self.events == old(self).events,
                self.max_events == old(self).max_events,
                self.mouse_pos == old(self).mouse_pos,
                self.key_states@ == old_states,
                old_states == old(self).key_states@,
                i <= old_states.len(),
                k == code@,
                forall|j: int| i <= j < old_states.len() ==> (#[trigger] old_states[j]).0@ != k,
            decreases i,
        {
            if same_chars(self.key_states[i - 1].0.as_str(), code.as_str()) {
                let ghost idx = i - 1;
                let ghost code_copy = code;
                let mut states: Vec<(String, bool)> = Vec::new();
                std::mem::swap(&mut self.key_states, &mut states);
                states.set(i - 1, (code, down));
                std::mem::swap(&mut self.key_states, &mut states);
                proof {
                    lemma_key_lookup_set(old_states, idx, k, code_copy, down);
                }
                assert(self@.keys =~= old(self)@.keys.insert(k, down));
                return;
            }
            i = i - 1;
        }
        let mut states: Vec<(String, bool)> = Vec::new();
        std::mem::swap(&mut self.key_states, &mut states);
        states.push((code, down));
        std::mem::swap(&mut self.key_states, &mut states);
        proof {
            lemma_key_lookup_absent(old_states, k);
        }
        assert(self@.keys =~= old(self)@.keys.insert(k, down));
    }

    /// A key was pressed: `key_code` names the physical key, `key` the character or action it
    /// stands for under the current layout. The key is recorded as down, a key event is
    /// queued, and then the text it types, if any (see [`typed_text`]).
    pub fn handle_key_down(
        &mut self,
        key_code: String,
        key: &str,
        is_composing: bool,
        ctrl_down: bool,
        shift_down: bool,
        alt_down: bool,
    )
        ensures
            final(self)@.keys == old(self)@.keys.insert(key_code@, true),
            final(self)@.mouse == old(self)@.mouse,
            final(self)@.max_events == old(self)@.max_events,
            typed_text(key@, is_composing) is None ==> exists|a: Event|
                #[trigger] is_key_event(a, true, key_code@, ctrl_down, shift_down, alt_down)
                    && final(self)@.events == enqueue(old(self)@.events, old(self)@.max_events, a),
            typed_text(key@, is_composing) is Some ==> exists|a: Event, b: Event|
                #[trigger] is_key_event(a, true, key_code@, ctrl_down, shift_down, alt_down)
                    && #[trigger] is_char_event(b, typed_text(key@, is_composing)->Some_0)
                    && final(self)@.events == enqueue(
                    enqueue(old(self)@.events, old(self)@.max_events, a),
                    old(self)@.max_events,
                    b,
                ),
    {
        let ev = Event::KeyDown(
            KeyCodeEvent { key_code: key_code.clone(), ctrl_down, shift_down, alt_down },
        );
        let ghost a = ev;
        let ghost m = self.max_events;
        self.set_key(key_code, true);
        let ghost before = self@.events;
        self.push_event(ev);
        proof {
            reveal_strlit("Enter");
        }
        if !is_composing {
            if same_chars(key, "Enter") {
                let ch = Event::Char("\n".to_string());
                let ghost b = ch;
                self.push_event(ch);
                assert(is_key_event(a, true, key_code@, ctrl_down, shift_down, alt_down)
                    && is_char_event(b, typed_text(key@, is_composing)->Some_0)
                    && self@.events == enqueue(enqueue(old(self)@.events, m, a), m, b));
                return;
            } else if key.unicode_len() == 1 {
                let ch = Event::Char(key.to_string());
                let ghost b = ch;
                self.push_event(ch);
                assert(is_key_event(a, true, key_code@, ctrl_down, shift_down, alt_down)
                    && is_char_event(b, typed_text(key@, is_composing)->Some_0)
                    && self@.events == enqueue(enqueue(old(self)@.events, m, a), m, b));
                return;
            }
        }
        assert(typed_text(key@, is_composing) is None);
        assert(is_key_event(a, true, key_code@, ctrl_down, shift_down, alt_down));
    }

    /// A key was released: it is recorded as up and a key event is queued.
    pub fn handle_key_up(&mut self, key_code: String, ctrl_down: bool, shift_down: bool, alt_down: bool)
        ensures
            final(self)@.keys == old(self)@.keys.insert(key_code@, false),
            final(self)@.mouse == old(self)@.mouse,
            final(self)@.max_events == old(self)@.max_events,
            exists|a: Event|
                #[trigger] is_key_event(a, false, key_code@, ctrl_down, shift_down, alt_down)
                    && final(self)@.events == enqueue(old(self)@.events, old(self)@.max_events, a),
    {
        let ev = Event::KeyUp(
            KeyCodeEvent { key_code: key_code.clone(), ctrl_down, shift_down, alt_down },
        );
        let ghost a = ev;
        self.set_key(key_code, false);
        self.push_event(ev);
        assert(is_key_event(a, false, key_code@, ctrl_down, shift_down, alt_down));
    }

    /// An input method finished composing: the text it composed, if any, is queued.
    pub fn handle_composition_end(&mut self, data: Option<String>)
        ensures
            final(self)@.keys == old(self)@.keys,
            final(self)@.mouse == old(self)@.mouse,
            final(self)@.max_events == old(self)@.max_events,
            final(self)@.events == match data {
                Some(t) => enqueue(old(self)@.events, old(self)@.max_events, Event::Char(t)),
                None => old(self)@.events,
            },
    {
        if let Some(t) = data {
            self.push_event(Event::Char(t));
        }
    }

    /// A mouse button was pressed over the drawing surface.
    pub fn handle_mouse_down(&mut self, e: MouseEvent)
        ensures
            final(self)@.keys == old(self)@.keys,
            final(self)@.mouse == old(self)@.mouse,
            final(self)@.max_events == old(self)@.max_events,
            final(self)@.events == enqueue(
                old(self)@.events,
                old(self)@.max_events,
                Event::MouseDown(e),
            ),
    {
        self.push_event(Event::MouseDown(e));
    }

    /// A mouse button was released over the drawing surface.
    pub fn handle_mouse_up(&mut self, e: MouseEvent)
        ensures
            final(self)@.keys == old(self)@.keys,
            final(self)@.mouse == old(self)@.mouse,
            final(self)@.max_events == old(self)@.max_events,
            final(self)@.events == enqueue(
                old(self)@.events,
                old(self)@.max_events,
                Event::MouseUp(e),
            ),
    {
        self.push_event(Event::MouseUp(e));
    }

    /// The mouse moved to `(x, y)` over the drawing surface.
    pub fn handle_mouse_move(&mut self, x: i32, y: i32)
        ensures
            final(self)@.mouse == Some((x, y)),
            final(self)@.keys == old(self)@.keys,
            final(self)@.events == old(self)@.events,
            final(self)@.max_events == old(self)@.max_events,
    {
        proof {
            use_type_invariant(&*self);
        }
        self.mouse_pos = Some((x, y));
    }

    /// The mouse left the drawing surface.
    pub fn handle_mouse_leave(&mut self)
        ensures
            final(self)@.mouse is None,
            final(self)@.keys == old(self)@.keys,
            final(self)@.events == old(self)@.events,
            final(self)@.max_events == old(self)@.max_events,
    {
        proof {
            use_type_invariant(&*self);
        }
        self.mouse_pos = None;
    }

    /// Queues one event.
    fn push_event(&mut self, e: Event)
        ensures
            final(self)@.events == enqueue(old(self)@.events, old(self)@.max_events, e),
            final(self)@.keys == old(self)@.keys,
            final(self)@.mouse == old(self)@.mouse,
            final(self)@.max_events == old(self)@.max_events,
    {
        proof {
            use_type_invariant(&*self);
        }
        let m = Ghost(self.max_events);
        let mut q = Self::new_key_events(self.max_events);
        std::mem::swap(&mut self.events, &mut q);
        q.add(e, m);
        std::mem::swap(&mut self.events, &mut q);
    }
}

} // verus!
