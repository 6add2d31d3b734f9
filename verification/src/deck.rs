use vstd::prelude::*;
use crate::cards::CardType;
use crate::players::AttackedEvent;
use crate::random::random_below;

verus! {

/// The card type that a roll of the twelve-sided die stands for: three faces
/// for hearts, two for swords, two for towers, five for pitchforks.
pub open spec fn card_of_roll(roll: int) -> CardType {
    if roll <= 2 {
        CardType::Heart
    } else if roll <= 4 {
        CardType::Sword
    } else if roll <= 6 {
        CardType::Tower
    } else {
        CardType::Pitchfork
    }
}

/// The card type that a roll of the twelve-sided die stands for.
pub fn card_for_roll(roll: usize) -> (r: CardType)
    ensures
        r == card_of_roll(roll as int),
{
    match roll {
        0 | 1 | 2 => CardType::Heart,
        3 | 4 => CardType::Sword,
        5 | 6 => CardType::Tower,
        _ => CardType::Pitchfork,
    }
}

/// The cards left to draw, as a bag: a draw takes any one of them.
pub struct DeckState {
    cards: Vec<CardType>,
}

impl View for DeckState {
    type V = Seq<CardType>;

    closed spec fn view(&self) -> Seq<CardType> {
        self.cards@
    }
}

impl DeckState {
    /// A deck of `size` cards, each one rolled on the twelve-sided die.
    pub fn new(size: u32) -> (r: Self)
        ensures
            r@.len() == size,
    {
        let mut cards: Vec<CardType> = Vec::new();
        let mut n: u32 = 0;
        while n < size
            invariant
                n <= size,
                cards@.len() == n,
            decreases size - n,
        {
            let roll = random_below(12);
            cards.push(card_for_roll(roll));
            n += 1;
        }
        Self { cards }
    }

    /// A deck of the cards given, in their order.
    pub fn from_cards(cards: Vec<CardType>) -> (r: Self)
        ensures
            r@ == cards@,
    {
        Self { cards }
    }

    /// Takes the card at `index` out of the deck.
    pub fn draw_at(&mut self, index: usize) -> (r: CardType)
        requires
            index < old(self)@.len(),
        ensures
            r == old(self)@[index as int],
            final(self)@ == old(self)@.remove(index as int),
    {
        self.cards.remove(index)
    }

    /// Takes a card out of the deck, any of them; `None` once the deck is
    /// empty.
    pub fn draw(&mut self) -> (r: Option<CardType>)
        ensures
            match r {
                Some(card) => exists|i: int|
                    0 <= i < old(self)@.len() && card == #[trigger] old(self)@[i] && final(self)@
                        == old(self)@.remove(i),
                None => old(self)@.len() == 0 && final(self)@ == old(self)@,
            },
    {
        if self.cards.is_empty() {
            return None;
        }
        let index = random_below(self.cards.len());
        Some(self.draw_at(index))
    }

    /// Whether no card is left.
    pub fn is_empty(&self) -> (r: bool)
        ensures
            r == (self@.len() == 0),
    {
        self.cards.is_empty()
    }

    /// Where the first card stands that `power` pays for.
    pub fn first_affordable_index(&self, power: i32) -> (r: Option<usize>)
        ensures
            match r {
                Some(i) => first_affordable(self@, power as int, i as int),
                None => forall|i: int|
                    0 <= i < self@.len() ==> !affordable(#[trigger] self@[i], power as int),
            },
    {
        let mut i: usize = 0;
        while i < self.cards.len()
            invariant
                i <= self.cards@.len(),
                forall|j: int| 0 <= j < i ==> !affordable(#[trigger] self.cards@[j], power as int),
            decreases self.cards@.len() - i,
        {
            if power as i64 >= self.cards[i].attributes().cost as i64 {
                return Some(i);
            }
            i += 1;
        }
        None
    }

    /// The number of cards left, as far as 32 bits hold it.
    pub fn size(&self) -> (r: u32)
        ensures
            r == self@.len() as u32,
    {
        #[verifier::truncate]
        (self.cards.len() as u32)
    }
}

/// Whether a card of type `card` can be paid for with `power`.
pub open spec fn affordable(card: CardType, power: int) -> bool {
    power >= card.spec_attributes().cost
}

/// The card at `i` is the first one in `deck` that `power` pays for.
pub open spec fn first_affordable(deck: Seq<CardType>, power: int, i: int) -> bool {
    &&& 0 <= i < deck.len()
    &&& affordable(deck[i], power)
    &&& forall|j: int| 0 <= j < i ==> !affordable(#[trigger] deck[j], power)
}

/// What both sides keep count of: a deck, a health pool and power.
pub trait PlayableState: Sized {
    /// The cards left in the deck.
    spec fn spec_deck(&self) -> Seq<CardType>;

    /// The power left to spend this turn.
    spec fn spec_available_power(&self) -> i32;

    /// The health pool.
    spec fn spec_health(&self) -> i32;

    /// The most power the side can ever have.
    spec fn spec_max_power(&self) -> u32;

    /// The power that the side starts its turn with.
    spec fn spec_power(&self) -> u32;

    /// The event that says this side was hit in the face.
    spec fn spec_attacked_event(damage: u32) -> AttackedEvent;

    /// What the side keeps besides its deck, health and power is as in
    /// `other`.
    spec fn same_rest(&self, other: &Self) -> bool;

    /// `same_rest` holds of a side and itself, and carries over a side in
    /// between.
    proof fn lemma_same_rest(a: &Self, b: &Self, c: &Self)
        ensures
            a.same_rest(a),
            a.same_rest(b) && b.same_rest(c) ==> a.same_rest(c),
    ;

    fn attacked_event(damage: u32) -> (r: AttackedEvent)
        ensures
            r == Self::spec_attacked_event(damage),
    ;

    fn deck_size(&self) -> (r: u32)
        ensures
            r == self.spec_deck().len() as u32,
    ;

    /// Takes a card out of the deck, any of them. A side that does not draw
    /// gets `None` and keeps its deck.
    fn draw_card(&mut self) -> (r: Option<CardType>)
        ensures
            match r {
                Some(card) => exists|i: int|
                    0 <= i < old(self).spec_deck().len() && card == #[trigger] old(
                        self,
                    ).spec_deck()[i] && final(self).spec_deck() == old(self).spec_deck().remove(i),
                None => final(self).spec_deck() == old(self).spec_deck(),
            },
            final(self).spec_available_power() == old(self).spec_available_power(),
            final(self).spec_health() == old(self).spec_health(),
            final(self).spec_max_power() == old(self).spec_max_power(),
            final(self).spec_power() == old(self).spec_power(),
            final(self).same_rest(old(self)),
        default_ensures
            r is None,
            *final(self) == *old(self),
    {
        proof {
            Self::lemma_same_rest(self, self, self);
        }
        None
    }

    /// How many cards the side draws at the start of its turn; never more
    /// than the deck holds.
    fn draw_count(&self) -> (r: u32)
        ensures
            r <= self.spec_deck().len() as u32,
        default_ensures
            r == 0,
    {
        0
    }

    fn get_available_power(&self) -> (r: i32)
        ensures
            r == self.spec_available_power(),
    ;

    fn get_health(&self) -> (r: i32)
        ensures
            r == self.spec_health(),
    ;

    fn get_max_power(&self) -> (r: u32)
        ensures
            r == self.spec_max_power(),
    ;

    fn get_power(&self) -> (r: u32)
        ensures
            r == self.spec_power(),
    ;

    fn set_available_power(&mut self, power: i32)
        ensures
            final(self).spec_available_power() == power,
            final(self).spec_deck() == old(self).spec_deck(),
            final(self).spec_health() == old(self).spec_health(),
            final(self).spec_max_power() == old(self).spec_max_power(),
            final(self).spec_power() == old(self).spec_power(),
            final(self).same_rest(old(self)),
    ;

    /// Sets the power that the side starts its turn with; a negative number
    /// is taken as the 32 bits it is written in.
    fn set_power(&mut self, power: i32)
        ensures
            final(self).spec_power() == power as u32,
            final(self).spec_available_power() == old(self).spec_available_power(),
            final(self).spec_deck() == old(self).spec_deck(),
            final(self).spec_health() == old(self).spec_health(),
            final(self).spec_max_power() == old(self).spec_max_power(),
            final(self).same_rest(old(self)),
    ;

    /// Whether the side's power is laid out on the table.
    fn show_power() -> (r: bool)
        default_ensures
            !r,
    {
        false
    }

    fn take_damage(&mut self, damage: i32)
        requires
            i32::MIN <= old(self).spec_health() - damage <= i32::MAX,
        ensures
            final(self).spec_health() == old(self).spec_health() - damage,
            final(self).spec_available_power() == old(self).spec_available_power(),
            final(self).spec_deck() == old(self).spec_deck(),
            final(self).spec_max_power() == old(self).spec_max_power(),
            final(self).spec_power() == old(self).spec_power(),
            final(self).same_rest(old(self)),
    ;

    /// The same side with a fresh deck of `size` cards, each one rolled on
    /// the twelve-sided die.
    fn with_deck_size(self, size: u32) -> (r: Self)
        ensures
            r.spec_deck().len() == size,
            r.spec_available_power() == self.spec_available_power(),
            r.spec_health() == self.spec_health(),
            r.spec_max_power() == self.spec_max_power(),
            r.spec_power() == self.spec_power(),
            r.same_rest(&self),
    ;

    fn with_health(self, health: i32) -> (r: Self)
        ensures
            r.spec_health() == health,
            r.spec_available_power() == self.spec_available_power(),
            r.spec_deck() == self.spec_deck(),
            r.spec_max_power() == self.spec_max_power(),
            r.spec_power() == self.spec_power(),
            r.same_rest(&self),
    ;
}

/// The opponent's deck, hand, health and power.
pub struct OpponentState {
    pub available_power: i32,
    pub deck_state: DeckState,
    pub hand: Vec<CardType>,
    pub health: i32,
    pub max_power: u32,
    pub power: u32,
    pub turn: u32,
}

impl OpponentState {
    /// Whether some card left in the deck can be paid for.
    pub open spec fn spec_can_play_card(&self) -> bool {
        exists|i: int|
            0 <= i < self.deck_state@.len() && affordable(
                #[trigger] self.deck_state@[i],
                self.available_power as int,
            )
    }

    pub fn can_play_card(&self) -> (r: bool)
        ensures
            r == self.spec_can_play_card(),
    {
        self.deck_state.first_affordable_index(self.available_power).is_some()
    }

    /// Takes the first card that can be paid for out of the deck. The power
    /// is left as it is: whoever puts the card down pays for it.
    pub fn play_card(&mut self) -> (r: Option<CardType>)
        ensures
            match r {
                Some(card) => exists|i: int|
                    #![trigger old(self).deck_state@[i]]
                    first_affordable(old(self).deck_state@, old(self).available_power as int, i)
                        && card == old(self).deck_state@[i] && final(self).deck_state@ == old(
                        self,
                    ).deck_state@.remove(i),
                None => !old(self).spec_can_play_card() && final(self).deck_state@ == old(
                    self,
                ).deck_state@,
            },
            final(self).available_power == old(self).available_power,
            final(self).hand@ == old(self).hand@,
            final(self).health == old(self).health,
            final(self).max_power == old(self).max_power,
            final(self).power == old(self).power,
            final(self).turn == old(self).turn,
    {
        match self.deck_state.first_affordable_index(self.available_power) {
            Some(card_index) => Some(self.deck_state.draw_at(card_index)),
            None => None,
        }
    }

    /// Fills the hand from the deck, any card at a time, until it holds six
    /// cards or the deck is empty.
    pub fn draw_cards(&mut self)
        ensures
            final(self).hand@.len() + final(self).deck_state@.len() == old(self).hand@.len() + old(
                self,
            ).deck_state@.len(),
            old(self).hand@.len() >= 6 ==> final(self).hand@ == old(self).hand@,
            old(self).hand@.len() < 6 ==> final(self).hand@.len() == if old(self).hand@.len()
                + old(self).deck_state@.len() < 6 {
                old(self).hand@.len() + old(self).deck_state@.len()
            } else {
                6
            },
            final(self).hand@.take(old(self).hand@.len() as int) == old(self).hand@,
            final(self).hand@.to_multiset().add(final(self).deck_state@.to_multiset()) == old(
                self,
            ).hand@.to_multiset().add(old(self).deck_state@.to_multiset()),
            final(self).available_power == old(self).available_power,
            final(self).health == old(self).health,
            final(self).max_power == old(self).max_power,
            final(self).power == old(self).power,
            final(self).turn == old(self).turn,
    {
        while self.hand.len() < 6 && !self.deck_state.is_empty()
            invariant
                self.hand@.len() + self.deck_state@.len() == old(self).hand@.len() + old(
                    self,
                ).deck_state@.len(),
                old(self).hand@.len() <= self.hand@.len(),
                old(self).hand@.len() >= 6 ==> self.hand@ == old(self).hand@,
                old(self).hand@.len() < 6 ==> self.hand@.len() <= 6,
                self.hand@.take(old(self).hand@.len() as int) == old(self).hand@,
                self.hand@.to_multiset().add(self.deck_state@.to_multiset()) == old(
                    self,
                ).hand@.to_multiset().add(old(self).deck_state@.to_multiset()),
                self.available_power == old(self).available_power,
                self.health == old(self).health,
                self.max_power == old(self).max_power,
                self.power == old(self).power,
                self.turn == old(self).turn,
            decreases self.deck_state@.len(),
        {
            let ghost hand_before = self.hand@;
            let ghost deck_before = self.deck_state@;
            match self.deck_state.draw() {
                Some(card) => {
                    self.hand.push(card);
                    proof {
                        let i = choose|i: int|
                            0 <= i < deck_before.len() && card == #[trigger] deck_before[i]
                                && self.deck_state@ == deck_before.remove(i);
                        lemma_move_keeps_cards(hand_before, deck_before, i);
                        assert(self.hand@.take(old(self).hand@.len() as int) =~= hand_before.take(
                            old(self).hand@.len() as int,
                        ));
                    }
                },
                None => {},
            }
        }
    }
}

/// Moving the card at `i` from `deck` to the end of `hand` keeps the cards
/// that the two hold together.
proof fn lemma_move_keeps_cards(hand: Seq<CardType>, deck: Seq<CardType>, i: int)
    requires
        0 <= i < deck.len(),
    ensures
        hand.push(deck[i]).to_multiset().add(deck.remove(i).to_multiset()) == hand.to_multiset().add(
            deck.to_multiset(),
        ),
{
    vstd::seq_lib::to_multiset_remove(deck, i);
    vstd::seq_lib::to_multiset_build(hand, deck[i]);
    deck.to_multiset_ensures();
    assert(deck.contains(deck[i]));
    assert(deck.to_multiset() =~= deck.remove(i).to_multiset().insert(deck[i]));
    assert(hand.push(deck[i]).to_multiset() =~= hand.to_multiset().insert(deck[i]));
    assert(hand.push(deck[i]).to_multiset().add(deck.remove(i).to_multiset())
        =~= hand.to_multiset().add(deck.to_multiset()));
}

impl Default for OpponentState {
    fn default() -> (r: Self)
        ensures
            r.available_power == 0,
            r.deck_state@.len() == 12,
            r.hand@.len() == 0,
            r.health == 12,
            r.max_power == 5,
            r.power == 0,
            r.turn == 0,
    {
        Self {
            available_power: 0,
            deck_state: DeckState::new(12),
            hand: Vec::new(),
            health: 12,
            max_power: 5,
            power: 0,
            turn: 0,
        }
    }
}

impl PlayableState for OpponentState {
    open spec fn spec_deck(&self) -> Seq<CardType> {
        self.deck_state@
    }

    open spec fn spec_available_power(&self) -> i32 {
        self.available_power
    }

    open spec fn spec_health(&self) -> i32 {
        self.health
    }

    open spec fn spec_max_power(&self) -> u32 {
        self.max_power
    }

    open spec fn spec_power(&self) -> u32 {
        self.power
    }

    open spec fn spec_attacked_event(damage: u32) -> AttackedEvent {
        AttackedEvent::Opponent(damage)
    }

    open spec fn same_rest(&self, other: &Self) -> bool {
        &&& self.hand == other.hand
        &&& self.turn == other.turn
    }

    proof fn lemma_same_rest(a: &Self, b: &Self, c: &Self) {
    }

    fn attacked_event(damage: u32) -> (r: AttackedEvent) {
        AttackedEvent::Opponent(damage)
    }

    fn deck_size(&self) -> (r: u32) {
        self.deck_state.size()
    }

    fn get_available_power(&self) -> (r: i32) {
        self.available_power
    }

    fn get_health(&self) -> (r: i32) {
        self.health
    }

    fn get_max_power(&self) -> (r: u32) {
        self.max_power
    }

    fn get_power(&self) -> (r: u32) {
        self.power
    }

    fn set_available_power(&mut self, power: i32)
        ensures
            final(self).hand == old(self).hand,
            final(self).turn == old(self).turn,
    {
        self.available_power = power;
    }

    fn set_power(&mut self, power: i32)
        ensures
            final(self).hand == old(self).hand,
            final(self).turn == old(self).turn,
    {
        self.power = #[verifier::truncate]
        (power as u32);
    }

    fn take_damage(&mut self, damage: i32)
        ensures
            final(self).hand == old(self).hand,
            final(self).turn == old(self).turn,
    {
        self.health -= damage;
    }

    fn with_deck_size(self, size: u32) -> (r: Self)
        ensures
            r.hand == self.hand,
            r.turn == self.turn,
    {
        let mut state = self;
        state.deck_state = DeckState::new(size);
        state
    }

    fn with_health(self, health: i32) -> (r: Self)
        ensures
            r.hand == self.hand,
            r.turn == self.turn,
    {
        let mut state = self;
        state.health = health;
        state
    }
}

/// The player's deck, health and power.
pub struct PlayerState {
    pub available_power: i32,
    pub deck_state: DeckState,
    pub health: i32,
    pub max_hand_size: u32,
    pub max_power: u32,
    pub power: u32,
    pub sent_to_menu: bool,
    pub turn: u32,
}

impl PlayerState {
    /// How many cards the player draws at the start of a turn: three on the
    /// first, two after that, and never more than the deck holds.
    pub open spec fn spec_draw_count(&self) -> int {
        let nominal: int = if self.turn == 0 {
            3
        } else {
            2
        };
        let left = self.deck_state@.len() as u32;
        if nominal <= left {
            nominal
        } else {
            left as int
        }
    }

    /// Everything but the deck is as in `other`.
    pub open spec fn same_but_deck(&self, other: &PlayerState) -> bool {
        &&& self.available_power == other.available_power
        &&& self.health == other.health
        &&& self.max_hand_size == other.max_hand_size
        &&& self.max_power == other.max_power
        &&& self.power == other.power
        &&& self.sent_to_menu == other.sent_to_menu
        &&& self.turn == other.turn
    }
}

impl PlayableState for PlayerState {
    open spec fn spec_deck(&self) -> Seq<CardType> {
        self.deck_state@
    }

    open spec fn spec_available_power(&self) -> i32 {
        self.available_power
    }

    open spec fn spec_health(&self) -> i32 {
        self.health
    }

    open spec fn spec_max_power(&self) -> u32 {
        self.max_power
    }

    open spec fn spec_power(&self) -> u32 {
        self.power
    }

    open spec fn spec_attacked_event(damage: u32) -> AttackedEvent {
        AttackedEvent::Player(damage)
    }

    open spec fn same_rest(&self, other: &Self) -> bool {
        &&& self.max_hand_size == other.max_hand_size
        &&& self.sent_to_menu == other.sent_to_menu
        &&& self.turn == other.turn
    }

    proof fn lemma_same_rest(a: &Self, b: &Self, c: &Self) {
    }

    fn attacked_event(damage: u32) -> (r: AttackedEvent) {
        AttackedEvent::Player(damage)
    }

    fn deck_size(&self) -> (r: u32) {
        self.deck_state.size()
    }

    fn draw_card(&mut self) -> (r: Option<CardType>)
        ensures
            r is None <==> old(self).deck_state@.len() == 0,
            final(self).same_but_deck(old(self)),
    {
        let ghost before = self.deck_state@;
        let drawn = self.deck_state.draw();
        proof {
            if let Some(card) = drawn {
                let i = choose|i: int|
                    0 <= i < before.len() && card == #[trigger] before[i] && self.deck_state@
                        == before.remove(i);
                assert(old(self).spec_deck()[i] == card);
            }
        }
        drawn
    }

    fn draw_count(&self) -> (r: u32)
        ensures
            r == self.spec_draw_count(),
    {
        let count: u32 = if self.turn == 0 {
            3
        } else {
            2
        };
        let left = self.deck_size();
        if count <= left {
            count
        } else {
            left
        }
    }

    fn get_available_power(&self) -> (r: i32) {
        self.available_power
    }

    fn get_health(&self) -> (r: i32) {
        self.health
    }

    fn get_max_power(&self) -> (r: u32) {
        self.max_power
    }

    fn get_power(&self) -> (r: u32) {
        self.power
    }

    fn set_available_power(&mut self, power: i32)
        ensures
            final(self).max_hand_size == old(self).max_hand_size,
            final(self).sent_to_menu == old(self).sent_to_menu,
            final(self).turn == old(self).turn,
    {
        self.available_power = power;
    }

    fn set_power(&mut self, power: i32)
        ensures
            final(self).max_hand_size == old(self).max_hand_size,
            final(self).sent_to_menu == old(self).sent_to_menu,
            final(self).turn == old(self).turn,
    {
        self.power = #[verifier::truncate]
        (power as u32);
    }

    fn show_power() -> (r: bool)
        ensures
            r,
    {
        true
    }

    fn take_damage(&mut self, damage: i32)
        ensures
            final(self).max_hand_size == old(self).max_hand_size,
            final(self).sent_to_menu == old(self).sent_to_menu,
            final(self).turn == old(self).turn,
    {
        self.health -= damage;
    }

    fn with_deck_size(self, size: u32) -> (r: Self)
        ensures
            r.same_but_deck(&self),
    {
        let mut state = self;
        state.deck_state = DeckState::new(size);
        state
    }

    fn with_health(self, health: i32) -> (r: Self)
        ensures
            r.max_hand_size == self.max_hand_size,
            r.sent_to_menu == self.sent_to_menu,
            r.turn == self.turn,
    {
        let mut state = self;
        state.health = health;
        state
    }
}

impl Default for PlayerState {
    fn default() -> (r: Self)
        ensures
            r.available_power == 0,
            r.deck_state@.len() == 12,
            r.health == 10,
            r.max_hand_size == 5,
            r.max_power == 5,
            r.power == 0,
            !r.sent_to_menu,
            r.turn == 0,
    {
        Self {
            available_power: 0,
            deck_state: DeckState::new(12),
            health: 10,
            max_hand_size: 5,
            max_power: 5,
            power: 0,
            sent_to_menu: false,
            turn: 0,
        }
    }
}

} // verus!
