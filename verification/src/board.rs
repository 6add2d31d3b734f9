use vstd::prelude::*;
use crate::cards::{CardId, CardType};
use crate::random::random_below;

verus! {

/// A card standing in a slot.
#[derive(Clone, Copy, Debug, PartialEq, Eq, Structural)]
pub struct BoardPlacement {
    pub entity: CardId,
    pub card_type: CardType,
}

/// Keeps the occupant of a slot unless it is the card `entity`.
pub open spec fn other_than(entity: CardId) -> spec_fn(Option<BoardPlacement>) -> Option<
    BoardPlacement,
> {
    |slot: Option<BoardPlacement>|
        match slot {
            Some(p) => if p.entity != entity {
                Some(p)
            } else {
                None
            },
            None => None,
        }
}

/// Keeps the occupant of a slot if it is of type `card_type` and not the card
/// `entity`.
pub open spec fn other_of_type(entity: CardId, card_type: CardType) -> spec_fn(
    Option<BoardPlacement>,
) -> Option<BoardPlacement> {
    |slot: Option<BoardPlacement>|
        match slot {
            Some(p) => if p.entity != entity && p.card_type == card_type {
                Some(p)
            } else {
                None
            },
            None => None,
        }
}

/// Keeps the occupant of a slot.
pub open spec fn occupant() -> spec_fn(Option<BoardPlacement>) -> Option<BoardPlacement> {
    |slot: Option<BoardPlacement>| slot
}

/// One side's four slots, in order.
pub struct BoardState {
    board: [Option<BoardPlacement>; 4],
}

impl View for BoardState {
    type V = Seq<Option<BoardPlacement>>;

    closed spec fn view(&self) -> Seq<Option<BoardPlacement>> {
        self.board@
    }
}

/// The slots of a board, in order.
pub type Slots = Seq<Option<BoardPlacement>>;

/// Slot `i` exists and holds the card `entity`.
pub open spec fn holds_at(slots: Slots, i: int, entity: CardId) -> bool {
    &&& 0 <= i < 4
    &&& slots[i] matches Some(p)
    &&& p.entity == entity
}

/// Some slot holds the card `entity`.
pub open spec fn holds(slots: Slots, entity: CardId) -> bool {
    exists|i: int| holds_at(slots, i, entity)
}

/// The lowest slot that holds the card `entity`.
pub open spec fn slot_of(slots: Slots, entity: CardId) -> Option<int> {
    if holds_at(slots, 0, entity) {
        Some(0int)
    } else if holds_at(slots, 1, entity) {
        Some(1int)
    } else if holds_at(slots, 2, entity) {
        Some(2int)
    } else if holds_at(slots, 3, entity) {
        Some(3int)
    } else {
        None
    }
}

/// No card stands in two slots.
pub open spec fn distinct(slots: Slots) -> bool {
    forall|i: int, j: int, entity: CardId|
        #![trigger holds_at(slots, i, entity), holds_at(slots, j, entity)]
        holds_at(slots, i, entity) && holds_at(slots, j, entity) ==> i == j
}

/// Every slot is free.
pub open spec fn all_free(slots: Slots) -> bool {
    forall|i: int| 0 <= i < 4 ==> slots[i] is None
}

/// Some slot is free.
pub open spec fn has_free_slot(slots: Slots) -> bool {
    exists|i: int| 0 <= i < 4 && slots[i] is None
}

/// The occupants in slot order.
pub open spec fn occupants(slots: Slots) -> Seq<BoardPlacement> {
    slots.filter_map(occupant())
}

/// The neighbours of the card `entity`: what stands in the slots before and
/// after its own, with nothing beyond either end of the row.
pub open spec fn neighbours(slots: Slots, entity: CardId) -> (
    Option<BoardPlacement>,
    Option<BoardPlacement>,
) {
    match slot_of(slots, entity) {
        Some(i) => (
            if i == 0 {
                None
            } else {
                slots[i - 1]
            },
            if i == 3 {
                None
            } else {
                slots[i + 1]
            },
        ),
        None => (None, None),
    }
}

/// The occupants other than the card `entity`, in slot order.
pub open spec fn others_on(slots: Slots, entity: CardId) -> Seq<BoardPlacement> {
    slots.filter_map(other_than(entity))
}

/// The occupants of type `card_type` other than the card `entity`, in slot
/// order.
pub open spec fn others_of_type_on(slots: Slots, entity: CardId, card_type: CardType) -> Seq<
    BoardPlacement,
> {
    slots.filter_map(other_of_type(entity, card_type))
}

/// What stands in `other` opposite the card `entity` of `slots`.
pub open spec fn opposite(slots: Slots, other: Slots, entity: CardId) -> Option<BoardPlacement> {
    match slot_of(slots, entity) {
        Some(i) => other[i],
        None => None,
    }
}

/// The first free slot met from `start` on, going round the row.
pub open spec fn free_slot_from(slots: Slots, start: int) -> Option<int> {
    if slots[start % 4] is None {
        Some(start % 4)
    } else if slots[(start + 1) % 4] is None {
        Some((start + 1) % 4)
    } else if slots[(start + 2) % 4] is None {
        Some((start + 2) % 4)
    } else if slots[(start + 3) % 4] is None {
        Some((start + 3) % 4)
    } else {
        None
    }
}

/// The number of slots taken.
pub open spec fn taken(slots: Slots) -> nat {
    let one = |i: int|
        if slots[i] is Some {
            1nat
        } else {
            0nat
        };
    one(0) + one(1) + one(2) + one(3)
}

/// A board holds no more occupants than it has slots.
pub proof fn lemma_occupants_bounded(slots: Slots)
    ensures
        occupants(slots).len() <= slots.len(),
    decreases slots.len(),
{
    if slots.len() > 0 {
        lemma_occupants_bounded(slots.drop_last());
    }
}

/// None of the others on a board is the card left out.
pub proof fn lemma_others_exclude(slots: Slots, entity: CardId)
    ensures
        forall|k: int|
            0 <= k < others_on(slots, entity).len() ==> (#[trigger] others_on(
                slots,
                entity,
            )[k]).entity != entity,
{
    assert forall|k: int| 0 <= k < others_on(slots, entity).len() implies (#[trigger] others_on(
        slots,
        entity,
    )[k]).entity != entity by {
        let p = others_on(slots, entity)[k];
        assert(others_on(slots, entity).contains(p));
        slots.lemma_filter_map_contains(other_than(entity), p);
    }
}

impl BoardState {
    /// A board has four slots.
    pub broadcast proof fn lemma_four_slots(&self)
        ensures
            #[trigger] self@.len() == 4,
    {
    }

    pub fn new() -> (r: Self)
        ensures
            all_free(r@),
    {
        Self { board: [None; 4] }
    }

    /// The occupant of slot `index`.
    pub fn get(&self, index: usize) -> (r: Option<BoardPlacement>)
        requires
            index < 4,
        ensures
            r == self@[index as int],
    {
        self.board[index]
    }

    /// The lowest slot that holds the card `entity`.
    pub fn position(&self, entity: CardId) -> (r: Option<usize>)
        ensures
            match r {
                Some(i) => slot_of(self@, entity) == Some(i as int),
                None => slot_of(self@, entity) is None,
            },
    {
        let mut i: usize = 0;
        while i < 4
            invariant
                i <= 4,
                forall|j: int| 0 <= j < i ==> !holds_at(self@, j, entity),
            decreases 4 - i,
        {
            match self.board[i] {
                Some(p) => {
                    if p.entity == entity {
                        return Some(i);
                    }
                },
                None => {},
            }
            i += 1;
        }
        None
    }

    pub fn adjacent(&self, entity: CardId) -> (r: (Option<BoardPlacement>, Option<BoardPlacement>))
        ensures
            r == neighbours(self@, entity),
    {
        match self.position(entity) {
            Some(index) => {
                let left = if index == 0 {
                    None
                } else {
                    self.board[index - 1]
                };
                let right = if index == 3 {
                    None
                } else {
                    self.board[index + 1]
                };
                (left, right)
            },
            None => (None, None),
        }
    }

    /// The occupants in slot order.
    pub fn all(&self) -> (r: Vec<BoardPlacement>)
        ensures
            r@ == occupants(self@),
    {
        let mut out: Vec<BoardPlacement> = Vec::new();
        let mut i: usize = 0;
        while i < 4
            invariant
                i <= 4,
                out@ == self@.take(i as int).filter_map(occupant()),
            decreases 4 - i,
        {
            proof {
                self@.lemma_filter_map_take_succ(occupant(), i as int);
            }
            match self.board[i] {
                Some(p) => {
                    out.push(p);
                },
                None => {},
            }
            i += 1;
        }
        assert(self@.take(4) =~= self@);
        out
    }

    pub fn others(&self, entity: CardId) -> (r: Vec<BoardPlacement>)
        ensures
            r@ == others_on(self@, entity),
    {
        let mut out: Vec<BoardPlacement> = Vec::new();
        let mut i: usize = 0;
        while i < 4
            invariant
                i <= 4,
                out@ == self@.take(i as int).filter_map(other_than(entity)),
            decreases 4 - i,
        {
            proof {
                self@.lemma_filter_map_take_succ(other_than(entity), i as int);
            }
            match self.board[i] {
                Some(p) => {
                    if p.entity != entity {
                        out.push(p);
                    }
                },
                None => {},
            }
            i += 1;
        }
        assert(self@.take(4) =~= self@);
        out
    }

    pub fn others_of_type(&self, entity: CardId, card_type: CardType) -> (r: Vec<BoardPlacement>)
        ensures
            r@ == others_of_type_on(self@, entity, card_type),
    {
        let mut out: Vec<BoardPlacement> = Vec::new();
        let mut i: usize = 0;
        while i < 4
            invariant
                i <= 4,
                out@ == self@.take(i as int).filter_map(other_of_type(entity, card_type)),
            decreases 4 - i,
        {
            proof {
                self@.lemma_filter_map_take_succ(other_of_type(entity, card_type), i as int);
            }
            match self.board[i] {
                Some(p) => {
                    if p.entity != entity && p.card_type == card_type {
                        out.push(p);
                    }
                },
                None => {},
            }
            i += 1;
        }
        assert(self@.take(4) =~= self@);
        out
    }

    /// Puts the card into slot `index`, over whatever stood there.
    pub fn place(&mut self, index: u32, entity: CardId, card_type: CardType)
        requires
            index < 4,
        ensures
            final(self)@ == old(self)@.update(
                index as int,
                Some(BoardPlacement { entity, card_type }),
            ),
    {
        self.board[index as usize] = Some(BoardPlacement { entity, card_type });
    }

    /// Frees the lowest slot that holds the card `entity`, if any does.
    pub fn remove(&mut self, entity: CardId)
        ensures
            final(self)@ == match slot_of(old(self)@, entity) {
                Some(i) => old(self)@.update(i, None),
                None => old(self)@,
            },
    {
        match self.position(entity) {
            Some(i) => {
                self.board[i] = None;
            },
            None => {},
        }
    }

    pub fn unoccupied(&self, index: u32) -> (r: bool)
        requires
            index < 4,
        ensures
            r == (self@[index as int] is None),
    {
        self.board[index as usize].is_none()
    }

    pub fn has_empty_place(&self) -> (r: bool)
        ensures
            r == has_free_slot(self@),
    {
        let mut i: usize = 0;
        while i < 4
            invariant
                i <= 4,
                forall|j: int| 0 <= j < i ==> self@[j] is Some,
            decreases 4 - i,
        {
            if self.board[i].is_none() {
                return true;
            }
            i += 1;
        }
        false
    }

    /// The first free slot met from `start` on, going round the row.
    pub fn empty_place_from(&self, start: usize) -> (r: Option<u32>)
        requires
            start < 4,
        ensures
            match r {
                Some(i) => free_slot_from(self@, start as int) == Some(i as int),
                None => free_slot_from(self@, start as int) is None,
            },
    {
        let mut index: usize = start;
        let mut tried: usize = 0;
        while tried < 4
            invariant
                tried <= 4,
                start < 4,
                index < 4,
                index == (start + tried) % 4,
                tried > 0 ==> self@[start as int % 4] is Some,
                tried > 1 ==> self@[(start + 1) % 4] is Some,
                tried > 2 ==> self@[(start + 2) % 4] is Some,
                tried > 3 ==> self@[(start + 3) % 4] is Some,
            decreases 4 - tried,
        {
            if self.board[index].is_none() {
                return Some(index as u32);
            }
            index = (index + 1) % 4;
            tried += 1;
        }
        None
    }
}

/// What both sides' boards offer; each side's board type says where its slots
/// are kept.
pub trait Board {
    /// The slots of this board.
    spec fn spec_state(&self) -> BoardState;

    fn state(&self) -> (r: &BoardState)
        ensures
            *r == self.spec_state(),
    ;

    fn state_mut(&mut self) -> (r: &mut BoardState)
        ensures
            *r == old(self).spec_state(),
            final(self).spec_state() == *final(r),
    ;

    fn across(&self, other: &BoardState, entity: CardId) -> (r: Option<BoardPlacement>)
        ensures
            r == opposite(self.spec_state()@, other@, entity),
    {
        match self.state().position(entity) {
            Some(i) => other.get(i),
            None => None,
        }
    }

    fn adjacent(&self, entity: CardId) -> (r: (Option<BoardPlacement>, Option<BoardPlacement>))
        ensures
            r == neighbours(self.spec_state()@, entity),
    {
        self.state().adjacent(entity)
    }

    fn all(&self) -> (r: Vec<BoardPlacement>)
        ensures
            r@ == occupants(self.spec_state()@),
    {
        self.state().all()
    }

    fn others(&self, entity: CardId) -> (r: Vec<BoardPlacement>)
        ensures
            r@ == others_on(self.spec_state()@, entity),
    {
        self.state().others(entity)
    }

    fn others_of_type(&self, entity: CardId, card_type: CardType) -> (r: Vec<BoardPlacement>)
        ensures
            r@ == others_of_type_on(self.spec_state()@, entity, card_type),
    {
        self.state().others_of_type(entity, card_type)
    }

    fn place(&mut self, index: u32, entity: CardId, card_type: CardType)
        requires
            index < 4,
        ensures
            final(self).spec_state()@ == old(self).spec_state()@.update(
                index as int,
                Some(BoardPlacement { entity, card_type }),
            ),
    {
        self.state_mut().place(index, entity, card_type);
    }

    fn remove(&mut self, entity: CardId)
        ensures
            final(self).spec_state()@ == match slot_of(old(self).spec_state()@, entity) {
                Some(i) => old(self).spec_state()@.update(i, None),
                None => old(self).spec_state()@,
            },
    {
        self.state_mut().remove(entity);
    }

    fn unoccupied(&self, index: u32) -> (r: bool)
        requires
            index < 4,
        ensures
            r == (self.spec_state()@[index as int] is None),
    {
        self.state().unoccupied(index)
    }
}

/// The opponent's side of the table.
pub struct OpponentBoard {
    board_state: BoardState,
}

impl OpponentBoard {
    pub fn new() -> (r: Self)
        ensures
            all_free(r.spec_state()@),
    {
        Self { board_state: BoardState::new() }
    }

    pub fn has_empty_place(&self) -> (r: bool)
        ensures
            r == has_free_slot(self.spec_state()@),
    {
        self.board_state.has_empty_place()
    }

    /// A free slot: the first one met from a slot drawn at random, going
    /// round the row. `None` when every slot is taken.
    pub fn random_empty_place(&self) -> (r: Option<u32>)
        ensures
            r is Some <==> has_free_slot(self.spec_state()@),
            r matches Some(i) ==> i < 4 && self.spec_state()@[i as int] is None,
    {
        if self.board_state.has_empty_place() {
            let start = random_below(4);
            self.board_state.empty_place_from(start)
        } else {
            None
        }
    }
}

impl Board for OpponentBoard {
    closed spec fn spec_state(&self) -> BoardState {
        self.board_state
    }

    fn state(&self) -> (r: &BoardState) {
        &self.board_state
    }

    fn state_mut(&mut self) -> (r: &mut BoardState) {
        &mut self.board_state
    }
}

/// The player's side of the table.
pub struct PlayerBoard {
    board_state: BoardState,
}

impl PlayerBoard {
    pub fn new() -> (r: Self)
        ensures
            all_free(r.spec_state()@),
    {
        Self { board_state: BoardState::new() }
    }
}

impl Board for PlayerBoard {
    closed spec fn spec_state(&self) -> BoardState {
        self.board_state
    }

    fn state(&self) -> (r: &BoardState) {
        &self.board_state
    }

    fn state_mut(&mut self) -> (r: &mut BoardState) {
        &mut self.board_state
    }
}

} // verus!
