//! The door/riddle puzzle subsystem: door definitions loaded from level data,
//! puzzle panels with their answer slots and ring cursor, and the per-frame
//! rules that open panels, take keyboard entry, validate answers and commit
//! results.

use vstd::arithmetic::div_mod::{
    lemma_add_mod_noop, lemma_mod_add_multiples_vanish, lemma_mod_bound,
    lemma_mod_sub_multiples_vanish, lemma_small_mod,
};
use vstd::prelude::*;

use crate::mode::{GameMode, GameModeController};
use crate::registry::AnsweredRiddles;

verus! {

/// The glyph an answer slot shows while no digit has been entered into it.
pub const PLACEHOLDER: char = '_';

/// One door of the level: its riddle, the answer it expects, the level it
/// leads to once solved, the identifier of its puzzle panel while one
/// exists, and whether its sprite shows the opened state.
#[derive(Debug)]
pub struct RiddleInfo {
    /// The riddle shown on the puzzle panel; also the door's identifier in
    /// the registry of answered riddles.
    pub question: String,
    /// The expected answer, one slot per character.
    pub answer: String,
    /// The level a solved door warps to.
    pub next_level: String,
    /// The identifier of this door's puzzle panel in the panel store. A
    /// back-reference, not ownership: present exactly while the panel
    /// exists, cleared when the panel is destroyed.
    pub riddle: Option<usize>,
    /// Whether the door's sprite shows the opened state.
    pub opened: bool,
}

/// A door definition that cannot be loaded: one of its three required
/// fields is absent. Fatal at initialization.
#[derive(Clone, Copy, Debug, PartialEq, Eq, Structural)]
pub enum DoorFieldError {
    MissingQuestion,
    MissingAnswer,
    MissingNextLevel,
}

/// The value a field list holds for `key`: the value of the last entry with
/// that identifier, as when the entries are poured into a map front to back.
pub open spec fn spec_lookup(fields: Seq<(String, String)>, key: Seq<char>) -> Option<Seq<char>>
    decreases fields.len(),
{
    if fields.len() == 0 {
        Option::None
    } else if fields.last().0@ == key {
        Option::Some(fields.last().1@)
    } else {
        spec_lookup(fields.drop_last(), key)
    }
}

/// Finds the value of the last field entry whose identifier equals `key`.
pub fn lookup_field(fields: &Vec<(String, String)>, key: &String) -> (r: Option<String>)
    ensures
        r.is_some() == spec_lookup(fields@, key@).is_some(),
        r.is_some() ==> r.unwrap()@ == spec_lookup(fields@, key@).unwrap(),
{
    let mut i: usize = fields.len();
    proof {
        assert(fields@.take(i as int) =~= fields@);
    }
    while i > 0
        invariant
            i <= fields@.len(),
            spec_lookup(fields@, key@) == spec_lookup(fields@.take(i as int), key@),
        decreases i,
    {
        i = i - 1;
        let hit = fields[i].0.eq(key);
        proof {
            assert(fields@.take(i + 1).last() == fields@[i as int]);
            assert(fields@.take(i + 1).drop_last() =~= fields@.take(i as int));
        }
        if hit {
            return Option::Some(fields[i].1.clone());
        }
    }
    proof {
        assert(fields@.take(0).len() == 0);
    }
    Option::None
}

impl RiddleInfo {
    /// Builds a door from the field entries of its level-data definition.
    /// The three fields `question`, `answer` and `next_level` are required;
    /// the first one absent names the error. A fresh door has no panel yet
    /// and its sprite closed.
    pub fn from_fields(fields: &Vec<(String, String)>) -> (r: Result<RiddleInfo, DoorFieldError>)
        ensures
            match r {
                Result::Ok(info) => {
                    &&& spec_lookup(fields@, "question"@).is_some()
                    &&& spec_lookup(fields@, "answer"@).is_some()
                    &&& spec_lookup(fields@, "next_level"@).is_some()
                    &&& info.question@ == spec_lookup(fields@, "question"@).unwrap()
                    &&& info.answer@ == spec_lookup(fields@, "answer"@).unwrap()
                    &&& info.next_level@ == spec_lookup(fields@, "next_level"@).unwrap()
                    &&& info.riddle.is_none()
                    &&& !info.opened
                },
                Result::Err(e) => match e {
                    DoorFieldError::MissingQuestion => spec_lookup(fields@, "question"@).is_none(),
                    DoorFieldError::MissingAnswer => {
                        &&& spec_lookup(fields@, "question"@).is_some()
                        &&& spec_lookup(fields@, "answer"@).is_none()
                    },
                    DoorFieldError::MissingNextLevel => {
                        &&& spec_lookup(fields@, "question"@).is_some()
                        &&& spec_lookup(fields@, "answer"@).is_some()
                        &&& spec_lookup(fields@, "next_level"@).is_none()
                    },
                },
            },
    {
        let question = match lookup_field(fields, &("question".to_owned())) {
            Option::Some(v) => v,
            Option::None => {
                return Result::Err(DoorFieldError::MissingQuestion);
            },
        };
        let answer = match lookup_field(fields, &("answer".to_owned())) {
            Option::Some(v) => v,
            Option::None => {
                return Result::Err(DoorFieldError::MissingAnswer);
            },
        };
        let next_level = match lookup_field(fields, &("next_level".to_owned())) {
            Option::Some(v) => v,
            Option::None => {
                return Result::Err(DoorFieldError::MissingNextLevel);
            },
        };
        Result::Ok(RiddleInfo { question, answer, next_level, riddle: Option::None, opened: false })
    }
}

/// The slot characters of a panel after a sequence of digits has been
/// entered one by one, each written under the cursor, the cursor advancing
/// by one modulo the slot count after each.
pub open spec fn spec_slots_after(slots: Seq<char>, cursor: int, digits: Seq<char>) -> Seq<char>
    decreases digits.len(),
{
    if digits.len() == 0 {
        slots
    } else {
        spec_slots_after(
            slots.update(cursor, digits[0]),
            (cursor + 1) % (slots.len() as int),
            digits.drop_first(),
        )
    }
}

/// Entering digits never changes how many slots there are.
pub proof fn lemma_slots_after_len(slots: Seq<char>, cursor: int, digits: Seq<char>)
    requires
        0 <= cursor < slots.len(),
    ensures
        spec_slots_after(slots, cursor, digits).len() == slots.len(),
    decreases digits.len(),
{
    if digits.len() > 0 {
        let slots1 = slots.update(cursor, digits[0]);
        let n = slots.len() as int;
        assert(slots1.len() == slots.len());
        assert(0 <= (cursor + 1) % n < n) by {
            lemma_mod_bound(cursor + 1, n);
        }
        lemma_slots_after_len(slots1, (cursor + 1) % n, digits.drop_first());
    }
}

/// Entering one more digit after a sequence writes it at the position the
/// cursor has reached: `cursor + digits.len()`, reduced modulo the slot
/// count.
pub proof fn lemma_slots_after_snoc(slots: Seq<char>, cursor: int, digits: Seq<char>, d: char)
    requires
        0 <= cursor < slots.len(),
    ensures
        spec_slots_after(slots, cursor, digits.push(d)) == spec_slots_after(
            slots,
            cursor,
            digits,
        ).update((cursor + digits.len()) % (slots.len() as int), d),
    decreases digits.len(),
{
    let n = slots.len() as int;
    if digits.len() == 0 {
        assert(digits.push(d)[0] == d);
        assert(digits.push(d).drop_first() =~= Seq::<char>::empty());
        lemma_small_mod(cursor as nat, slots.len());
        assert(spec_slots_after(slots, cursor, digits.push(d)) == spec_slots_after(
            slots.update(cursor, d),
            (cursor + 1) % n,
            Seq::<char>::empty(),
        ));
    } else {
        let slots1 = slots.update(cursor, digits[0]);
        let cursor1 = (cursor + 1) % n;
        assert(digits.push(d)[0] == digits[0]);
        assert(digits.push(d).drop_first() =~= digits.drop_first().push(d));
        lemma_mod_bound(cursor + 1, n);
        lemma_slots_after_snoc(slots1, cursor1, digits.drop_first(), d);
        assert((cursor1 + digits.drop_first().len()) % n == (cursor + digits.len()) % n) by {
            lemma_small_mod(cursor1 as nat, slots.len());
            lemma_add_mod_noop(cursor1, digits.len() - 1, n);
            lemma_add_mod_noop(cursor + 1, digits.len() - 1, n);
        }
    }
}

/// Advancing a ring position by one step and then by `t` more lands where
/// advancing by `1 + t` at once does.
proof fn lemma_ring_shift(c: int, t: int, n: int)
    requires
        0 <= c < n,
        0 <= t,
    ensures
        ((c + 1) % n + t) % n == (c + 1 + t) % n,
{
    lemma_mod_bound(c + 1, n);
    lemma_small_mod(((c + 1) % n) as nat, n as nat);
    lemma_add_mod_noop((c + 1) % n, t, n);
    lemma_add_mod_noop(c + 1, t, n);
}

/// Within one lap of the ring, positions are distinct: advancing by 1 to
/// one less than the ring size never returns to the start.
proof fn lemma_ring_step_distinct(c: int, t: int, n: int)
    requires
        0 <= c < n,
        0 < t < n,
    ensures
        (c + t) % n != c,
{
    if c + t < n {
        lemma_small_mod((c + t) as nat, n as nat);
    } else {
        lemma_mod_sub_multiples_vanish(c + t, n);
        lemma_small_mod((c + t - n) as nat, n as nat);
    }
}

/// Where each digit of one lap or less of entry lands: digit `j` stands in
/// slot `(cursor + j)` modulo the slot count, and every slot that no digit
/// landed in keeps the character it had. In particular an entered digit
/// stays in its slot until the cursor comes around to it again.
pub proof fn lemma_digit_positions(slots: Seq<char>, cursor: int, digits: Seq<char>)
    requires
        0 <= cursor < slots.len(),
        digits.len() <= slots.len(),
    ensures
        forall|j: int|
            0 <= j < digits.len() ==> spec_slots_after(slots, cursor, digits)[(cursor + j) % (
            slots.len() as int)] == digits[j],
        forall|p: int|
            0 <= p < slots.len() && (forall|j: int|
                0 <= j < digits.len() ==> p != #[trigger] ((cursor + j) % (
                slots.len() as int))) ==> spec_slots_after(slots, cursor, digits)[p] == slots[p],
    decreases digits.len(),
{
    let n = slots.len() as int;
    let result = spec_slots_after(slots, cursor, digits);
    if digits.len() == 0 {
        return ;
    }
    let slots1 = slots.update(cursor, digits[0]);
    let cursor1 = (cursor + 1) % n;
    let rest = digits.drop_first();
    lemma_mod_bound(cursor + 1, n);
    lemma_digit_positions(slots1, cursor1, rest);
    lemma_small_mod(cursor as nat, slots.len());

    assert forall|j: int|
        0 <= j < digits.len() implies result[(cursor + j) % n] == digits[j] by {
        if j == 0 {
            assert forall|j2: int|
                0 <= j2 < rest.len() implies cursor != #[trigger] ((cursor1 + j2) % n) by {
                lemma_ring_shift(cursor, j2, n);
                lemma_ring_step_distinct(cursor, 1 + j2, n);
            }
            assert(result[cursor] == slots1[cursor]);
            assert(slots1[cursor] == digits[0]);
        } else {
            lemma_ring_shift(cursor, j - 1, n);
            assert(result[(cursor1 + (j - 1)) % n] == rest[j - 1]);
        }
    }

    assert forall|p: int|
        0 <= p < slots.len() && (forall|j: int|
            0 <= j < digits.len() ==> p != #[trigger] ((cursor + j) % (
            slots.len() as int))) implies result[p] == slots[p] by {
        assert(p != (cursor + 0) % n);
        assert(p != cursor);
        assert forall|j2: int| 0 <= j2 < rest.len() implies p != #[trigger] ((cursor1 + j2)
            % n) by {
            lemma_ring_shift(cursor, j2, n);
            assert(p != (cursor + (j2 + 1)) % n);
        }
        assert(result[p] == slots1[p]);
        assert(slots1[p] == slots[p]);
    }
}

/// The ring property of digit entry: entering exactly as many digits as the
/// panel has slots returns the cursor to the position it started from,
/// whatever that position was.
pub proof fn lemma_digit_entry_ring(slots: Seq<char>, cursor: int, digits: Seq<char>)
    requires
        0 <= cursor < slots.len(),
        digits.len() == slots.len(),
    ensures
        (cursor + digits.len()) % (slots.len() as int) == cursor,
{
    let n = slots.len() as int;
    lemma_mod_add_multiples_vanish(cursor, n);
    lemma_small_mod(cursor as nat, slots.len());
}

/// The puzzle panel of an unsolved door: its visibility, the characters its
/// answer slots display in position order, and the ring cursor naming the
/// slot the next digit lands in.
#[derive(Debug)]
pub struct PuzzlePanel {
    /// Whether the panel is on screen. At most one panel is visible at any
    /// time.
    pub visible: bool,
    /// The displayed character of each answer slot, in position order. As
    /// many slots as the door's answer has characters.
    pub slots: Vec<char>,
    /// The slot the next entered digit is written into. Always a valid
    /// position; advances and wraps as digits come in.
    pub cursor: usize,
}

impl PuzzlePanel {
    /// The panel has at least one slot and its cursor points at one.
    pub open spec fn wf(&self) -> bool {
        &&& self.slots@.len() > 0
        &&& self.cursor < self.slots@.len()
    }

    /// A panel as created on level load for a door whose answer has `len`
    /// characters: hidden, every slot showing the placeholder, cursor at 0.
    pub open spec fn is_fresh(&self, len: nat) -> bool {
        &&& !self.visible
        &&& self.cursor == 0
        &&& self.slots@ == Seq::new(len, |i: int| PLACEHOLDER)
    }

    /// Creates the panel for a door whose answer has `len` characters.
    pub fn new(len: usize) -> (r: Self)
        requires
            len > 0,
        ensures
            r.wf(),
            r.is_fresh(len as nat),
    {
        let slots = vec![PLACEHOLDER; len];
        proof {
            assert(slots@ =~= Seq::new(len as nat, |i: int| PLACEHOLDER));
        }
        PuzzlePanel { visible: false, slots, cursor: 0 }
    }

    /// Writes `d` into the slot under the cursor, then advances the cursor
    /// by one, wrapping past the last slot to position 0.
    pub fn enter_digit(&mut self, d: char)
        requires
            old(self).wf(),
        ensures
            final(self).wf(),
            final(self).visible == old(self).visible,
            final(self).slots@ == old(self).slots@.update(old(self).cursor as int, d),
            final(self).cursor as int == (old(self).cursor + 1) % (old(self).slots@.len() as int),
    {
        let n = self.slots.len();
        self.slots[self.cursor] = d;
        self.cursor = (self.cursor + 1) % n;
    }

    /// Moves the cursor back by one, wrapping from position 0 to the last
    /// slot, and resets that slot to the placeholder glyph.
    pub fn delete_digit(&mut self)
        requires
            old(self).wf(),
        ensures
            final(self).wf(),
            final(self).visible == old(self).visible,
            final(self).cursor == if old(self).cursor == 0 {
                old(self).slots@.len() - 1
            } else {
                old(self).cursor - 1
            },
            final(self).slots@ == old(self).slots@.update(final(self).cursor as int, PLACEHOLDER),
    {
        if self.cursor == 0 {
            self.cursor = self.slots.len();
        }
        self.cursor = self.cursor - 1;
        self.slots[self.cursor] = PLACEHOLDER;
    }

    /// Whether some slot still shows the placeholder glyph: the answer has
    /// not been fully entered.
    pub open spec fn spec_any_placeholder(&self) -> bool {
        exists|i: int| 0 <= i < self.slots@.len() && self.slots@[i] == PLACEHOLDER
    }

    /// Whether any slot still shows the placeholder glyph.
    pub fn any_placeholder(&self) -> (r: bool)
        ensures
            r == self.spec_any_placeholder(),
    {
        let mut i: usize = 0;
        while i < self.slots.len()
            invariant
                0 <= i <= self.slots@.len(),
                forall|j: int| 0 <= j < i ==> (#[trigger] self.slots@[j]) != PLACEHOLDER,
            decreases self.slots@.len() - i,
        {
            if self.slots[i] == PLACEHOLDER {
                proof {
                    assert(self.spec_any_placeholder()) by {
                        assert(self.slots@[i as int] == PLACEHOLDER);
                    }
                }
                return true;
            }
            i = i + 1;
        }
        false
    }

    /// Resets the panel for another try: cursor back to position 0 and every
    /// slot showing the placeholder glyph again.
    pub fn clear(&mut self)
        requires
            old(self).wf(),
        ensures
            final(self).wf(),
            final(self).visible == old(self).visible,
            final(self).cursor == 0,
            final(self).slots@ == Seq::new(old(self).slots@.len(), |i: int| PLACEHOLDER),
    {
        let n = self.slots.len();
        let mut i: usize = 0;
        while i < n
            invariant
                0 <= i <= n,
                n == self.slots@.len(),
                self.cursor == old(self).cursor,
                self.visible == old(self).visible,
                self.cursor < n,
                forall|j: int| 0 <= j < i ==> (#[trigger] self.slots@[j]) == PLACEHOLDER,
                forall|j: int| i <= j < n ==> self.slots@[j] == old(self).slots@[j],
            decreases n - i,
        {
            self.slots[i] = PLACEHOLDER;
            i = i + 1;
        }
        self.cursor = 0;
        proof {
            assert(self.slots@ =~= Seq::new(old(self).slots@.len(), |i: int| PLACEHOLDER));
        }
    }

    /// Enters `digits` one after the other, each through
    /// [`PuzzlePanel::enter_digit`].
    pub fn enter_digits(&mut self, digits: &Vec<char>)
        requires
            old(self).wf(),
        ensures
            final(self).wf(),
            final(self).visible == old(self).visible,
            final(self).slots@ == spec_slots_after(
                old(self).slots@,
                old(self).cursor as int,
                digits@,
            ),
            final(self).cursor as int == (old(self).cursor + digits@.len()) % (
            old(self).slots@.len() as int),
    {
        let ghost n = old(self).slots@.len() as int;
        proof {
            assert(digits@.take(0) =~= Seq::<char>::empty());
            lemma_small_mod(old(self).cursor as nat, old(self).slots@.len());
        }
        let mut i: usize = 0;
        while i < digits.len()
            invariant
                old(self).wf(),
                self.wf(),
                0 <= i <= digits@.len(),
                n == old(self).slots@.len() as int,
                self.visible == old(self).visible,
                self.slots@ == spec_slots_after(
                    old(self).slots@,
                    old(self).cursor as int,
                    digits@.take(i as int),
                ),
                self.cursor as int == (old(self).cursor + i) % n,
            decreases digits@.len() - i,
        {
            let ghost before = *self;
            self.enter_digit(digits[i]);
            proof {
                lemma_slots_after_len(old(self).slots@, old(self).cursor as int, digits@.take(
                    i as int,
                ));
                assert(digits@.take(i + 1) =~= digits@.take(i as int).push(digits@[i as int]));
                lemma_slots_after_snoc(
                    old(self).slots@,
                    old(self).cursor as int,
                    digits@.take(i as int),
                    digits@[i as int],
                );
                lemma_add_mod_noop(old(self).cursor + i, 1, n);
                if n == 1 {
                    vstd::arithmetic::div_mod::lemma_mod_multiples_vanish(
                        before.cursor + 1,
                        0,
                        1,
                    );
                    vstd::arithmetic::div_mod::lemma_mod_multiples_vanish(
                        old(self).cursor + i + 1,
                        0,
                        1,
                    );
                } else {
                    lemma_small_mod(1nat, old(self).slots@.len());
                }
            }
            i = i + 1;
        }
        proof {
            assert(digits@.take(digits@.len() as int) =~= digits@);
        }
    }

    /// Whether the entered characters match `answer` exactly, position by
    /// position.
    pub fn matches_answer(&self, answer: &String) -> (r: bool)
        ensures
            r == (self.slots@ == answer@),
    {
        let s = answer.as_str();
        let n = s.unicode_len();
        if self.slots.len() != n {
            proof {
                assert(self.slots@.len() != answer@.len());
            }
            return false;
        }
        let mut i: usize = 0;
        while i < n
            invariant
                0 <= i <= n,
                n == self.slots@.len(),
                n == answer@.len(),
                s@ == answer@,
                forall|j: int| 0 <= j < i ==> self.slots@[j] == answer@[j],
            decreases n - i,
        {
            if self.slots[i] != s.get_char(i) {
                proof {
                    assert(self.slots@ != answer@) by {
                        assert(self.slots@[i as int] != answer@[i as int]);
                    }
                }
                return false;
            }
            i = i + 1;
        }
        proof {
            assert(self.slots@ =~= answer@);
        }
        true
    }
}

/// The panel at index `i` exists and is on screen.
pub open spec fn panel_visible_at(panels: Seq<Option<PuzzlePanel>>, i: int) -> bool {
    &&& 0 <= i < panels.len()
    &&& panels[i].is_some()
    &&& panels[i].unwrap().visible
}

/// Some panel of the store is on screen.
pub open spec fn some_panel_visible(panels: Seq<Option<PuzzlePanel>>) -> bool {
    exists|i: int| panel_visible_at(panels, i)
}

/// At most one panel of the store is on screen at any time.
pub open spec fn at_most_one_visible(panels: Seq<Option<PuzzlePanel>>) -> bool {
    forall|i: int, j: int|
        panel_visible_at(panels, i) && panel_visible_at(panels, j) ==> i == j
}

/// The invariant tying the global mode to the panel store: at most one
/// panel is ever visible, and one is visible exactly while the mode is
/// Solving. Every per-frame rule of this module preserves it.
pub open spec fn mode_panels_consistent(m: GameMode, panels: Seq<Option<PuzzlePanel>>) -> bool {
    &&& at_most_one_visible(panels)
    &&& (m == GameMode::Solving <==> some_panel_visible(panels))
}

/// A step that changes no panel's visibility keeps the invariant, for an
/// unchanged mode.
proof fn lemma_same_visibility_keeps_consistency(
    m: GameMode,
    before: Seq<Option<PuzzlePanel>>,
    after: Seq<Option<PuzzlePanel>>,
)
    requires
        mode_panels_consistent(m, before),
        before.len() == after.len(),
        forall|j: int|
            0 <= j < before.len() ==> panel_visible_at(after, j) == panel_visible_at(before, j),
    ensures
        mode_panels_consistent(m, after),
{
    assert forall|j1: int, j2: int|
        panel_visible_at(after, j1) && panel_visible_at(after, j2) implies j1 == j2 by {
        assert(panel_visible_at(before, j1));
        assert(panel_visible_at(before, j2));
    }
    if some_panel_visible(before) {
        let w = choose|w: int| panel_visible_at(before, w);
        assert(panel_visible_at(after, w));
    }
    if some_panel_visible(after) {
        let w = choose|w: int| panel_visible_at(after, w);
        assert(panel_visible_at(before, w));
    }
}

/// With no panel visible, any mode but Solving satisfies the invariant.
proof fn lemma_no_visible_keeps_consistency(m: GameMode, after: Seq<Option<PuzzlePanel>>)
    requires
        m != GameMode::Solving,
        !some_panel_visible(after),
    ensures
        mode_panels_consistent(m, after),
{
    assert forall|j1: int, j2: int|
        panel_visible_at(after, j1) && panel_visible_at(after, j2) implies j1 == j2 by {
        assert(some_panel_visible(after));
    }
}

/// With exactly one panel visible, the Solving mode satisfies the invariant.
proof fn lemma_single_visible_consistency(after: Seq<Option<PuzzlePanel>>, i: int)
    requires
        panel_visible_at(after, i),
        forall|j: int| j != i ==> !panel_visible_at(after, j),
    ensures
        mode_panels_consistent(GameMode::Solving, after),
{
    assert forall|j1: int, j2: int|
        panel_visible_at(after, j1) && panel_visible_at(after, j2) implies j1 == j2 by {
        if j1 != i {
            assert(!panel_visible_at(after, j1));
        }
        if j2 != i {
            assert(!panel_visible_at(after, j2));
        }
    }
}

/// Door `k` holds the back-reference to panel `i`.
pub open spec fn door_owns(doors: Seq<RiddleInfo>, k: int, i: int) -> bool {
    &&& 0 <= k < doors.len()
    &&& doors[k].riddle.is_some()
    &&& doors[k].riddle.unwrap() as int == i
}

/// Finds the panel that is on screen, if any: the first index holding a
/// visible panel.
pub fn find_visible_panel(panels: &Vec<Option<PuzzlePanel>>) -> (r: Option<usize>)
    ensures
        match r {
            Option::Some(i) => panel_visible_at(panels@, i as int) && forall|j: int|
                0 <= j < i ==> !panel_visible_at(panels@, j),
            Option::None => !some_panel_visible(panels@),
        },
{
    let mut i: usize = 0;
    while i < panels.len()
        invariant
            0 <= i <= panels@.len(),
            forall|j: int| 0 <= j < i ==> !panel_visible_at(panels@, j),
        decreases panels@.len() - i,
    {
        let visible = match &panels[i] {
            Option::Some(p) => p.visible,
            Option::None => false,
        };
        if visible {
            return Option::Some(i);
        }
        i = i + 1;
    }
    proof {
        assert(!some_panel_visible(panels@));
    }
    Option::None
}

/// How many of the first `k` doors are not yet answered: each of them gets
/// a panel on level load, in door order.
pub open spec fn spec_unsolved_before(
    doors: Seq<RiddleInfo>,
    answered: Set<Seq<char>>,
    k: int,
) -> int
    decreases k,
{
    if k <= 0 {
        0
    } else {
        spec_unsolved_before(doors, answered, k - 1) + if answered.contains(
            doors[k - 1].question@,
        ) {
            0int
        } else {
            1int
        }
    }
}

/// The count of unanswered doors among the first `k` is between 0 and `k`.
pub proof fn lemma_unsolved_before_bounds(doors: Seq<RiddleInfo>, answered: Set<Seq<char>>, k: int)
    requires
        k >= 0,
    ensures
        0 <= spec_unsolved_before(doors, answered, k) <= k,
    decreases k,
{
    if k > 0 {
        lemma_unsolved_before_bounds(doors, answered, k - 1);
    }
}

/// Sets the level's doors up when it has finished loading. A door whose
/// question is already in the answered registry gets its opened sprite and
/// no panel; every other door gets a fresh hidden panel appended to the
/// panel store, in door order, and its back-reference set to it.
pub fn init_riddles(
    doors: &mut Vec<RiddleInfo>,
    panels: &mut Vec<Option<PuzzlePanel>>,
    answered: &AnsweredRiddles,
)
    requires
        forall|k: int|
            0 <= k < old(doors)@.len() ==> {
                &&& (#[trigger] old(doors)@[k]).riddle.is_none()
                &&& !old(doors)@[k].opened
                &&& old(doors)@[k].answer@.len() > 0
            },
    ensures
        at_most_one_visible(old(panels)@) ==> at_most_one_visible(final(panels)@),
        some_panel_visible(final(panels)@) == some_panel_visible(old(panels)@),
        final(doors)@.len() == old(doors)@.len(),
        final(panels)@.len() == old(panels)@.len() + spec_unsolved_before(
            old(doors)@,
            answered@,
            old(doors)@.len() as int,
        ),
        forall|p: int| 0 <= p < old(panels)@.len() ==> final(panels)@[p] == old(panels)@[p],
        forall|k: int|
            #![trigger old(doors)@[k]]
            0 <= k < old(doors)@.len() ==> {
                let d0 = old(doors)@[k];
                let d1 = final(doors)@[k];
                &&& d1.question == d0.question
                &&& d1.answer == d0.answer
                &&& d1.next_level == d0.next_level
                &&& (answered@.contains(d0.question@) ==> d1.opened && d1.riddle.is_none())
                &&& (!answered@.contains(d0.question@) ==> ({
                    &&& !d1.opened
                    &&& d1.riddle.is_some()
                    &&& d1.riddle.unwrap() as int == old(panels)@.len() + spec_unsolved_before(
                        old(doors)@,
                        answered@,
                        k,
                    )
                    &&& final(panels)@[d1.riddle.unwrap() as int].is_some()
                    &&& final(panels)@[d1.riddle.unwrap() as int].unwrap().wf()
                    &&& final(panels)@[d1.riddle.unwrap() as int].unwrap().is_fresh(
                        d0.answer@.len(),
                    )
                }))
            },
{
    let ghost doors0 = doors@;
    let ghost panels0 = panels@;
    let mut k: usize = 0;
    while k < doors.len()
        invariant
            0 <= k <= doors0.len(),
            doors@.len() == doors0.len(),
            forall|j: int| k <= j < doors0.len() ==> doors@[j] == doors0[j],
            forall|j: int|
                0 <= j < doors0.len() ==> {
                    &&& (#[trigger] doors0[j]).riddle.is_none()
                    &&& !doors0[j].opened
                    &&& doors0[j].answer@.len() > 0
                },
            panels@.len() == panels0.len() + spec_unsolved_before(doors0, answered@, k as int),
            forall|p: int| 0 <= p < panels0.len() ==> panels@[p] == panels0[p],
            forall|p: int|
                panels0.len() <= p < panels@.len() ==> (#[trigger] panels@[p]).is_some()
                    && !panels@[p].unwrap().visible,
            forall|j: int|
                #![trigger doors0[j]]
                0 <= j < k ==> {
                    let d0 = doors0[j];
                    let d1 = doors@[j];
                    &&& d1.question == d0.question
                    &&& d1.answer == d0.answer
                    &&& d1.next_level == d0.next_level
                    &&& (answered@.contains(d0.question@) ==> d1.opened && d1.riddle.is_none())
                    &&& (!answered@.contains(d0.question@) ==> ({
                        &&& !d1.opened
                        &&& d1.riddle.is_some()
                        &&& d1.riddle.unwrap() as int == panels0.len() + spec_unsolved_before(
                            doors0,
                            answered@,
                            j,
                        )
                        &&& d1.riddle.unwrap() < panels@.len()
                        &&& panels@[d1.riddle.unwrap() as int].is_some()
                        &&& panels@[d1.riddle.unwrap() as int].unwrap().wf()
                        &&& panels@[d1.riddle.unwrap() as int].unwrap().is_fresh(d0.answer@.len())
                    }))
                },
        decreases doors0.len() - k,
    {
        proof {
            lemma_unsolved_before_bounds(doors0, answered@, k as int);
            assert(doors@[k as int] == doors0[k as int]);
            assert(doors0[k as int].answer@.len() > 0);
            assert(spec_unsolved_before(doors0, answered@, k + 1) == spec_unsolved_before(
                doors0,
                answered@,
                k as int,
            ) + if answered@.contains(doors0[k as int].question@) {
                0int
            } else {
                1int
            });
        }
        let solved = answered.contains(&doors[k].question);
        if solved {
            let door = &mut doors[k];
            door.opened = true;
        } else {
            let len = doors[k].answer.as_str().unicode_len();
            let panel = PuzzlePanel::new(len);
            let idx = panels.len();
            let ghost panels_before = panels@;
            let ghost pushed: Option<PuzzlePanel> = Option::Some(panel);
            panels.push(Option::Some(panel));
            proof {
                assert(panels@ == panels_before.push(pushed));
                assert forall|p: int| 0 <= p < panels0.len() implies panels@[p] == panels0[p] by {
                    assert(panels_before[p] == panels0[p]);
                    assert(panels_before.push(pushed)[p] == panels_before[p]);
                }
            }
            let door = &mut doors[k];
            door.riddle = Option::Some(idx);
        }
        k = k + 1;
    }
    proof {
        lemma_unsolved_before_bounds(doors0, answered@, doors0.len() as int);
        assert forall|j: int| panel_visible_at(panels@, j) implies panel_visible_at(
            panels0,
            j,
        ) by {
            if j >= panels0.len() {
                assert(!panels@[j].unwrap().visible);
            } else {
                assert(panels@[j] == panels0[j]);
            }
        }
        assert forall|j: int| panel_visible_at(panels0, j) implies panel_visible_at(
            panels@,
            j,
        ) by {
            assert(panels@[j] == panels0[j]);
        }
        if some_panel_visible(panels0) {
            let w = choose|w: int| panel_visible_at(panels0, w);
            assert(panel_visible_at(panels@, w));
        }
        if some_panel_visible(panels@) {
            let w = choose|w: int| panel_visible_at(panels@, w);
            assert(panel_visible_at(panels0, w));
        }
        if at_most_one_visible(panels0) {
            assert forall|j1: int, j2: int|
                panel_visible_at(panels@, j1) && panel_visible_at(panels@, j2) implies j1
                == j2 by {
                assert(panel_visible_at(panels0, j1));
                assert(panel_visible_at(panels0, j2));
            }
        }
    }
}

/// What pressing the interact key in front of a door did this frame.
#[derive(Clone, Copy, Debug, PartialEq, Eq, Structural)]
pub enum DoorAction {
    /// No door was interacted with: the key was not pressed, the game is
    /// not exploring, or no door overlaps the player.
    Untouched,
    /// The named unsolved door put its puzzle panel on screen; the mode
    /// moved to Solving.
    PanelOpened { door: usize },
    /// The named solved door warps to its next level; the mode moved to
    /// LevelLoading. The caller consumes the key press and switches levels.
    Warp { door: usize },
}

/// The first door the player overlaps: no earlier door overlaps.
pub open spec fn first_overlap_at(overlaps: Seq<bool>, k: int) -> bool {
    &&& 0 <= k < overlaps.len()
    &&& overlaps[k]
    &&& forall|j: int| 0 <= j < k ==> !overlaps[j]
}

/// Handles the interact key while exploring. On a fresh press, the first
/// door overlapping the player is interacted with: a door already answered
/// warps to its next level (mode to LevelLoading); an unsolved door shows
/// its panel (mode to Solving). Only one interaction is processed per press;
/// without a press, outside Exploring, or with no overlap nothing happens.
pub fn touch_door(
    doors: &Vec<RiddleInfo>,
    panels: &mut Vec<Option<PuzzlePanel>>,
    answered: &AnsweredRiddles,
    mode: &mut GameModeController,
    interact_just_pressed: bool,
    overlaps: &Vec<bool>,
) -> (r: DoorAction)
    requires
        overlaps@.len() == doors@.len(),
        forall|k: int|
            0 <= k < doors@.len() && !answered@.contains((#[trigger] doors@[k]).question@) ==> {
                &&& doors@[k].riddle.is_some()
                &&& doors@[k].riddle.unwrap() < old(panels)@.len()
                &&& old(panels)@[doors@[k].riddle.unwrap() as int].is_some()
            },
    ensures
        mode_panels_consistent(old(mode)@, old(panels)@) ==> mode_panels_consistent(
            final(mode)@,
            final(panels)@,
        ),
        final(panels)@.len() == old(panels)@.len(),
        r == DoorAction::Untouched ==> final(panels)@ == old(panels)@ && final(mode)@ == old(
            mode,
        )@,
        (!interact_just_pressed || old(mode)@ != GameMode::Exploring || (forall|k: int|
            0 <= k < overlaps@.len() ==> !overlaps@[k])) ==> r == DoorAction::Untouched,
        (interact_just_pressed && old(mode)@ == GameMode::Exploring) ==> forall|k: int|
            first_overlap_at(overlaps@, k) ==> {
                if answered@.contains(doors@[k].question@) {
                    &&& r == (DoorAction::Warp { door: k as usize })
                    &&& final(mode)@ == GameMode::LevelLoading
                    &&& final(panels)@ == old(panels)@
                } else {
                    let i = doors@[k].riddle.unwrap() as int;
                    &&& r == (DoorAction::PanelOpened { door: k as usize })
                    &&& final(mode)@ == GameMode::Solving
                    &&& final(panels)@[i].is_some()
                    &&& final(panels)@[i].unwrap().visible
                    &&& final(panels)@[i].unwrap().slots == old(panels)@[i].unwrap().slots
                    &&& final(panels)@[i].unwrap().cursor == old(panels)@[i].unwrap().cursor
                    &&& forall|p: int|
                        0 <= p < old(panels)@.len() && p != i ==> final(panels)@[p] == old(
                            panels,
                        )@[p]
                }
            },
{
    if !interact_just_pressed {
        return DoorAction::Untouched;
    }
    if mode.current() != GameMode::Exploring {
        return DoorAction::Untouched;
    }
    let mut k: usize = 0;
    while k < doors.len()
        invariant
            interact_just_pressed,
            old(mode)@ == GameMode::Exploring,
            panels@ == old(panels)@,
            mode@ == old(mode)@,
            overlaps@.len() == doors@.len(),
            0 <= k <= doors@.len(),
            forall|j: int| 0 <= j < k ==> !overlaps@[j],
            forall|j: int|
                0 <= j < doors@.len() && !answered@.contains(
                    (#[trigger] doors@[j]).question@,
                ) ==> {
                    &&& doors@[j].riddle.is_some()
                    &&& doors@[j].riddle.unwrap() < panels@.len()
                    &&& panels@[doors@[j].riddle.unwrap() as int].is_some()
                },
        decreases doors@.len() - k,
    {
        if overlaps[k] {
            if answered.contains(&doors[k].question) {
                mode.request(GameMode::LevelLoading);
                proof {
                    if mode_panels_consistent(old(mode)@, old(panels)@) {
                        lemma_no_visible_keeps_consistency(GameMode::LevelLoading, panels@);
                    }
                }
                return DoorAction::Warp { door: k };
            }
            proof {
                assert(doors@[k as int].riddle.is_some());
            }
            let i = match doors[k].riddle {
                Option::Some(i) => i,
                Option::None => unreached(),
            };
            match &mut panels[i] {
                Option::Some(p) => {
                    p.visible = true;
                },
                Option::None => unreached(),
            }
            mode.request(GameMode::Solving);
            proof {
                if mode_panels_consistent(old(mode)@, old(panels)@) {
                    assert(panel_visible_at(panels@, i as int));
                    assert forall|j: int| j != i as int implies !panel_visible_at(
                        panels@,
                        j,
                    ) by {
                        if 0 <= j < panels@.len() {
                            assert(panels@[j] == old(panels)@[j]);
                            assert(!panel_visible_at(old(panels)@, j));
                        }
                    }
                    lemma_single_visible_consistency(panels@, i as int);
                }
            }
            return DoorAction::PanelOpened { door: k };
        }
        k = k + 1;
    }
    DoorAction::Untouched
}

/// Feeds the digits the player typed this frame into the visible panel,
/// in order: each is written under the ring cursor, which then advances.
/// Runs only while the mode is Solving; with no digits nothing happens.
pub fn answering_riddle(
    panels: &mut Vec<Option<PuzzlePanel>>,
    mode: &GameModeController,
    digits: &Vec<char>,
)
    requires
        at_most_one_visible(old(panels)@),
        forall|i: int|
            panel_visible_at(old(panels)@, i) ==> (#[trigger] old(panels)@[i]).unwrap().wf(),
        mode@ == GameMode::Solving && digits@.len() > 0 ==> some_panel_visible(old(panels)@),
    ensures
        mode_panels_consistent(mode@, old(panels)@) ==> mode_panels_consistent(
            mode@,
            final(panels)@,
        ),
        final(panels)@.len() == old(panels)@.len(),
        mode@ != GameMode::Solving || digits@.len() == 0 ==> final(panels)@ == old(panels)@,
        mode@ == GameMode::Solving && digits@.len() > 0 ==> forall|i: int|
            panel_visible_at(old(panels)@, i) ==> ({
                let p0 = (#[trigger] old(panels)@[i]).unwrap();
                let p1 = final(panels)@[i].unwrap();
                &&& final(panels)@[i].is_some()
                &&& p1.visible
                &&& p1.wf()
                &&& p1.slots@ == spec_slots_after(p0.slots@, p0.cursor as int, digits@)
                &&& p1.cursor as int == (p0.cursor + digits@.len()) % (p0.slots@.len() as int)
                &&& forall|q: int|
                    0 <= q < old(panels)@.len() && q != i ==> final(panels)@[q] == old(
                        panels,
                    )@[q]
            }),
{
    if mode.current() != GameMode::Solving {
        return ;
    }
    if digits.len() == 0 {
        return ;
    }
    let i = match find_visible_panel(panels) {
        Option::Some(i) => i,
        Option::None => unreached(),
    };
    let ghost panels_before = panels@;
    match &mut panels[i] {
        Option::Some(p) => {
            p.enter_digits(digits);
        },
        Option::None => unreached(),
    }
    proof {
        assert(panels@ == panels_before.update(i as int, panels@[i as int]));
        if mode_panels_consistent(mode@, panels_before) {
            assert forall|j: int|
                0 <= j < panels_before.len() implies panel_visible_at(panels@, j)
                == panel_visible_at(panels_before, j) by {
                if j != i as int {
                    assert(panels@[j] == panels_before[j]);
                }
            }
            lemma_same_visibility_keeps_consistency(mode@, panels_before, panels@);
        }
    }
}

/// Handles the backspace key while solving: on a fresh press, the visible
/// panel's cursor moves back by one, wrapping from position 0 to the last
/// slot, and that slot is reset to the placeholder glyph.
pub fn delete_digit(
    panels: &mut Vec<Option<PuzzlePanel>>,
    mode: &GameModeController,
    backspace_just_pressed: bool,
)
    requires
        at_most_one_visible(old(panels)@),
        forall|i: int|
            panel_visible_at(old(panels)@, i) ==> (#[trigger] old(panels)@[i]).unwrap().wf(),
        mode@ == GameMode::Solving && backspace_just_pressed ==> some_panel_visible(old(panels)@),
    ensures
        mode_panels_consistent(mode@, old(panels)@) ==> mode_panels_consistent(
            mode@,
            final(panels)@,
        ),
        final(panels)@.len() == old(panels)@.len(),
        mode@ != GameMode::Solving || !backspace_just_pressed ==> final(panels)@ == old(panels)@,
        mode@ == GameMode::Solving && backspace_just_pressed ==> forall|i: int|
            panel_visible_at(old(panels)@, i) ==> ({
                let p0 = (#[trigger] old(panels)@[i]).unwrap();
                let p1 = final(panels)@[i].unwrap();
                &&& final(panels)@[i].is_some()
                &&& p1.visible
                &&& p1.wf()
                &&& p1.cursor == if p0.cursor == 0 {
                    p0.slots@.len() - 1
                } else {
                    p0.cursor - 1
                }
                &&& p1.slots@ == p0.slots@.update(p1.cursor as int, PLACEHOLDER)
                &&& forall|q: int|
                    0 <= q < old(panels)@.len() && q != i ==> final(panels)@[q] == old(
                        panels,
                    )@[q]
            }),
{
    if mode.current() != GameMode::Solving {
        return ;
    }
    if !backspace_just_pressed {
        return ;
    }
    let i = match find_visible_panel(panels) {
        Option::Some(i) => i,
        Option::None => unreached(),
    };
    let ghost panels_before = panels@;
    match &mut panels[i] {
        Option::Some(p) => {
            p.delete_digit();
        },
        Option::None => unreached(),
    }
    proof {
        assert(panels@ == panels_before.update(i as int, panels@[i as int]));
        if mode_panels_consistent(mode@, panels_before) {
            assert forall|j: int|
                0 <= j < panels_before.len() implies panel_visible_at(panels@, j)
                == panel_visible_at(panels_before, j) by {
                if j != i as int {
                    assert(panels@[j] == panels_before[j]);
                }
            }
            lemma_same_visibility_keeps_consistency(mode@, panels_before, panels@);
        }
    }
}

/// Handles the enter key while solving: the visible panel's slots are read
/// in position order and compared with the answer of the door owning that
/// panel. On a mismatch nothing changes. On a match the door's question is
/// recorded in the answered registry, the panel is destroyed and the
/// back-reference cleared, the door's sprite switches to its opened state,
/// and the mode returns to Exploring. Returns the solved door's index, for
/// the caller to despawn the panel entity and repaint the door.
pub fn correct_answer(
    doors: &mut Vec<RiddleInfo>,
    panels: &mut Vec<Option<PuzzlePanel>>,
    answered: &mut AnsweredRiddles,
    mode: &mut GameModeController,
    enter_just_pressed: bool,
) -> (solved: Option<usize>)
    requires
        at_most_one_visible(old(panels)@),
        old(mode)@ == GameMode::Solving && enter_just_pressed ==> some_panel_visible(
            old(panels)@,
        ),
        forall|i: int|
            panel_visible_at(old(panels)@, i) ==> exists|k: int| door_owns(old(doors)@, k, i),
        forall|i: int, k1: int, k2: int|
            panel_visible_at(old(panels)@, i) && door_owns(old(doors)@, k1, i) && door_owns(
                old(doors)@,
                k2,
                i,
            ) ==> k1 == k2,
    ensures
        mode_panels_consistent(old(mode)@, old(panels)@) ==> mode_panels_consistent(
            final(mode)@,
            final(panels)@,
        ),
        final(doors)@.len() == old(doors)@.len(),
        final(panels)@.len() == old(panels)@.len(),
        !enter_just_pressed || old(mode)@ != GameMode::Solving ==> ({
            &&& solved.is_none()
            &&& final(doors)@ == old(doors)@
            &&& final(panels)@ == old(panels)@
            &&& final(answered)@ == old(answered)@
            &&& final(mode)@ == old(mode)@
        }),
        enter_just_pressed && old(mode)@ == GameMode::Solving ==> forall|i: int, k: int|
            panel_visible_at(old(panels)@, i) && #[trigger] door_owns(old(doors)@, k, i) ==> ({
                let p0 = old(panels)@[i].unwrap();
                let d0 = old(doors)@[k];
                if p0.slots@ == d0.answer@ {
                    &&& solved == Option::Some(k as usize)
                    &&& final(answered)@ == old(answered)@.insert(d0.question@)
                    &&& final(panels)@ == old(panels)@.update(i, Option::None)
                    &&& final(doors)@[k].question == d0.question
                    &&& final(doors)@[k].answer == d0.answer
                    &&& final(doors)@[k].next_level == d0.next_level
                    &&& final(doors)@[k].riddle.is_none()
                    &&& final(doors)@[k].opened
                    &&& (forall|j: int|
                        0 <= j < old(doors)@.len() && j != k ==> final(doors)@[j] == old(
                            doors,
                        )@[j])
                    &&& final(mode)@ == GameMode::Exploring
                } else {
                    &&& solved.is_none()
                    &&& final(doors)@ == old(doors)@
                    &&& final(panels)@ == old(panels)@
                    &&& final(answered)@ == old(answered)@
                    &&& final(mode)@ == old(mode)@
                }
            }),
{
    if !enter_just_pressed {
        return Option::None;
    }
    if mode.current() != GameMode::Solving {
        return Option::None;
    }
    let i = match find_visible_panel(panels) {
        Option::Some(i) => i,
        Option::None => unreached(),
    };
    let mut k: usize = 0;
    let owner: usize;
    loop
        invariant_except_break
            0 <= k <= doors@.len(),
            doors@ == old(doors)@,
            panels@ == old(panels)@,
            panel_visible_at(panels@, i as int),
            exists|k2: int| door_owns(doors@, k2, i as int),
            forall|j: int| 0 <= j < k ==> !door_owns(doors@, j, i as int),
        ensures
            door_owns(doors@, owner as int, i as int),
            doors@ == old(doors)@,
            panels@ == old(panels)@,
        decreases doors@.len() - k,
    {
        if k >= doors.len() {
            proof {
                let k2 = choose|k2: int| door_owns(doors@, k2, i as int);
                assert(!door_owns(doors@, k2, i as int));
            }
            unreached::<()>();
        }
        let hit = match doors[k].riddle {
            Option::Some(p) => p == i,
            Option::None => false,
        };
        if hit {
            owner = k;
            break ;
        }
        k = k + 1;
    }
    let matched = match &panels[i] {
        Option::Some(p) => p.matches_answer(&doors[owner].answer),
        Option::None => unreached(),
    };
    if !matched {
        return Option::None;
    }
    answered.insert(doors[owner].question.clone());
    let ghost panels_before = panels@;
    panels[i] = Option::None;
    proof {
        assert(panels@ =~= panels_before.update(i as int, Option::<PuzzlePanel>::None));
    }
    let door = &mut doors[owner];
    door.riddle = Option::None;
    door.opened = true;
    mode.request(GameMode::Exploring);
    proof {
        if mode_panels_consistent(old(mode)@, old(panels)@) {
            assert forall|j: int| panel_visible_at(panels@, j) implies false by {
                if j == i as int {
                    assert(panels@[j].is_none());
                } else {
                    assert(panels@[j] == old(panels)@[j]);
                    assert(panel_visible_at(old(panels)@, j));
                    assert(panel_visible_at(old(panels)@, i as int));
                }
            }
            assert(!some_panel_visible(panels@));
            lemma_no_visible_keeps_consistency(GameMode::Exploring, panels@);
        }
    }
    proof {
        assert forall|i2: int, k2: int|
            panel_visible_at(old(panels)@, i2) && #[trigger] door_owns(
                old(doors)@,
                k2,
                i2,
            ) implies i2 == i as int && k2 == owner as int by {
            assert(panel_visible_at(old(panels)@, i as int));
        }
    }
    Option::Some(owner)
}

/// Handles the second look at the enter key while solving, after the
/// answer check: if the visible panel had been fully filled in (no slot
/// showing the placeholder) and it still exists — the answer was wrong —
/// the panel resets for another try: cursor to position 0, every slot back
/// to the placeholder. A partly filled panel, or none (the answer was just
/// accepted), is left alone.
pub fn clear_input(
    panels: &mut Vec<Option<PuzzlePanel>>,
    mode: &GameModeController,
    enter_just_pressed: bool,
)
    requires
        at_most_one_visible(old(panels)@),
        forall|i: int|
            panel_visible_at(old(panels)@, i) ==> (#[trigger] old(panels)@[i]).unwrap().wf(),
    ensures
        mode_panels_consistent(mode@, old(panels)@) ==> mode_panels_consistent(
            mode@,
            final(panels)@,
        ),
        final(panels)@.len() == old(panels)@.len(),
        !enter_just_pressed || mode@ != GameMode::Solving || !some_panel_visible(
            old(panels)@,
        ) ==> final(panels)@ == old(panels)@,
        enter_just_pressed && mode@ == GameMode::Solving ==> forall|i: int|
            panel_visible_at(old(panels)@, i) ==> ({
                let p0 = (#[trigger] old(panels)@[i]).unwrap();
                let p1 = final(panels)@[i].unwrap();
                if p0.spec_any_placeholder() {
                    final(panels)@ == old(panels)@
                } else {
                    &&& final(panels)@[i].is_some()
                    &&& p1.visible
                    &&& p1.wf()
                    &&& p1.cursor == 0
                    &&& p1.slots@ == Seq::new(p0.slots@.len(), |s: int| PLACEHOLDER)
                    &&& forall|q: int|
                        0 <= q < old(panels)@.len() && q != i ==> final(panels)@[q] == old(
                            panels,
                        )@[q]
                }
            }),
{
    if !enter_just_pressed {
        return ;
    }
    if mode.current() != GameMode::Solving {
        return ;
    }
    let i = match find_visible_panel(panels) {
        Option::Some(i) => i,
        Option::None => {
            return ;
        },
    };
    let partly = match &panels[i] {
        Option::Some(p) => p.any_placeholder(),
        Option::None => unreached(),
    };
    if partly {
        return ;
    }
    let ghost panels_before = panels@;
    match &mut panels[i] {
        Option::Some(p) => {
            p.clear();
        },
        Option::None => unreached(),
    }
    proof {
        assert(panels@ == panels_before.update(i as int, panels@[i as int]));
        if mode_panels_consistent(mode@, panels_before) {
            assert forall|j: int|
                0 <= j < panels_before.len() implies panel_visible_at(panels@, j)
                == panel_visible_at(panels_before, j) by {
                if j != i as int {
                    assert(panels@[j] == panels_before[j]);
                }
            }
            lemma_same_visibility_keeps_consistency(mode@, panels_before, panels@);
        }
    }
}

/// Handles the escape key while solving: on a fresh press the visible
/// panel is hidden — its slots and cursor are kept as they are — and the
/// mode returns to Exploring. The answered registry is not consulted and
/// not changed: cancelling never commits anything.
pub fn close_riddle(
    panels: &mut Vec<Option<PuzzlePanel>>,
    mode: &mut GameModeController,
    escape_just_pressed: bool,
)
    requires
        at_most_one_visible(old(panels)@),
        old(mode)@ == GameMode::Solving && escape_just_pressed ==> some_panel_visible(
            old(panels)@,
        ),
    ensures
        mode_panels_consistent(old(mode)@, old(panels)@) ==> mode_panels_consistent(
            final(mode)@,
            final(panels)@,
        ),
        final(panels)@.len() == old(panels)@.len(),
        !escape_just_pressed || old(mode)@ != GameMode::Solving ==> final(panels)@ == old(
            panels,
        )@ && final(mode)@ == old(mode)@,
        escape_just_pressed && old(mode)@ == GameMode::Solving ==> ({
            &&& final(mode)@ == GameMode::Exploring
            &&& forall|i: int|
                panel_visible_at(old(panels)@, i) ==> ({
                    let p0 = (#[trigger] old(panels)@[i]).unwrap();
                    let p1 = final(panels)@[i].unwrap();
                    &&& final(panels)@[i].is_some()
                    &&& !p1.visible
                    &&& p1.slots == p0.slots
                    &&& p1.cursor == p0.cursor
                    &&& forall|q: int|
                        0 <= q < old(panels)@.len() && q != i ==> final(panels)@[q] == old(
                            panels,
                        )@[q]
                })
        }),
{
    if !escape_just_pressed {
        return ;
    }
    if mode.current() != GameMode::Solving {
        return ;
    }
    let i = match find_visible_panel(panels) {
        Option::Some(i) => i,
        Option::None => unreached(),
    };
    let ghost panels_before = panels@;
    match &mut panels[i] {
        Option::Some(p) => {
            p.visible = false;
        },
        Option::None => unreached(),
    }
    mode.request(GameMode::Exploring);
    proof {
        assert(panels@ == panels_before.update(i as int, panels@[i as int]));
        if mode_panels_consistent(old(mode)@, old(panels)@) {
            assert forall|j: int| panel_visible_at(panels@, j) implies false by {
                if j == i as int {
                    assert(!panels@[j].unwrap().visible);
                } else {
                    assert(panels@[j] == old(panels)@[j]);
                    assert(panel_visible_at(old(panels)@, j));
                    assert(panel_visible_at(old(panels)@, i as int));
                }
            }
            assert(!some_panel_visible(panels@));
            lemma_no_visible_keeps_consistency(GameMode::Exploring, panels@);
        }
    }
}

} // verus!
