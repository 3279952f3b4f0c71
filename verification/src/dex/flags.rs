use vstd::prelude::*;

verus! {

/// One bit of the 64-bit flag word that opens every account.
#[derive(Clone, Copy, Debug, PartialEq, Eq, Structural)]
pub enum AccountFlag {
    Initialized,
    Market,
    OpenOrders,
    RequestQueue,
    EventQueue,
    Bids,
    Asks,
    Disabled,
    Closed,
    Permissioned,
}

/// One bit of the 8-bit word that says what an event reports.
#[derive(Clone, Copy, Debug, PartialEq, Eq, Structural)]
pub enum EventFlag {
    Fill,
    Out,
    Bid,
    Maker,
    ReleaseFunds,
}

/// The side of the book an order rests on.
#[derive(Clone, Copy, Debug, PartialEq, Eq, Structural)]
pub enum Side {
    Bid,
    Ask,
}

/// The flag word of a market: initialized, market, permissioned.
pub const MARKET_FLAGS: u64 = 0x203;

/// The flag word of an event queue: initialized, event queue.
pub const EVENT_QUEUE_FLAGS: u64 = 0x11;

impl AccountFlag {
    /// The word in which only this flag's bit is set.
    pub open spec fn mask(self) -> u64 {
        match self {
            AccountFlag::Initialized => 0x1,
            AccountFlag::Market => 0x2,
            AccountFlag::OpenOrders => 0x4,
            AccountFlag::RequestQueue => 0x8,
            AccountFlag::EventQueue => 0x10,
            AccountFlag::Bids => 0x20,
            AccountFlag::Asks => 0x40,
            AccountFlag::Disabled => 0x80,
            AccountFlag::Closed => 0x100,
            AccountFlag::Permissioned => 0x200,
        }
    }

    /// Whether this flag's bit is set in `word`.
    pub open spec fn is_set_in(self, word: u64) -> bool {
        word & self.mask() != 0
    }

    #[verifier::when_used_as_spec(mask)]
    pub fn bits(self) -> (r: u64)
        ensures
            r == self.mask(),
    {
        match self {
            AccountFlag::Initialized => 0x1,
            AccountFlag::Market => 0x2,
            AccountFlag::OpenOrders => 0x4,
            AccountFlag::RequestQueue => 0x8,
            AccountFlag::EventQueue => 0x10,
            AccountFlag::Bids => 0x20,
            AccountFlag::Asks => 0x40,
            AccountFlag::Disabled => 0x80,
            AccountFlag::Closed => 0x100,
            AccountFlag::Permissioned => 0x200,
        }
    }

    /// Tests this flag in a flag word.
    pub fn is_set(self, word: u64) -> (r: bool)
        ensures
            r == self.is_set_in(word),
    {
        word & self.bits() != 0
    }
}

impl EventFlag {
    /// The byte in which only this flag's bit is set.
    pub open spec fn mask(self) -> u8 {
        match self {
            EventFlag::Fill => 0x1,
            EventFlag::Out => 0x2,
            EventFlag::Bid => 0x4,
            EventFlag::Maker => 0x8,
            EventFlag::ReleaseFunds => 0x10,
        }
    }

    /// Whether this flag's bit is set in `byte`.
    pub open spec fn is_set_in(self, byte: u8) -> bool {
        byte & self.mask() != 0
    }

    #[verifier::when_used_as_spec(mask)]
    pub fn bits(self) -> (r: u8)
        ensures
            r == self.mask(),
    {
        match self {
            EventFlag::Fill => 0x1,
            EventFlag::Out => 0x2,
            EventFlag::Bid => 0x4,
            EventFlag::Maker => 0x8,
            EventFlag::ReleaseFunds => 0x10,
        }
    }
}

/// The flag word in which exactly the flags of `set` are set.
pub open spec fn flag_word(set: Set<AccountFlag>) -> u64 {
    (if set.contains(AccountFlag::Initialized) { 0x1u64 } else { 0 })
        | (if set.contains(AccountFlag::Market) { 0x2u64 } else { 0 })
        | (if set.contains(AccountFlag::OpenOrders) { 0x4u64 } else { 0 })
        | (if set.contains(AccountFlag::RequestQueue) { 0x8u64 } else { 0 })
        | (if set.contains(AccountFlag::EventQueue) { 0x10u64 } else { 0 })
        | (if set.contains(AccountFlag::Bids) { 0x20u64 } else { 0 })
        | (if set.contains(AccountFlag::Asks) { 0x40u64 } else { 0 })
        | (if set.contains(AccountFlag::Disabled) { 0x80u64 } else { 0 })
        | (if set.contains(AccountFlag::Closed) { 0x100u64 } else { 0 })
        | (if set.contains(AccountFlag::Permissioned) { 0x200u64 } else { 0 })
}

/// What a slab asks of its flag word: initialized, and on exactly one side
/// of the book. Other bits are not looked at.
pub open spec fn slab_flags_ok(word: u64) -> bool {
    AccountFlag::Initialized.is_set_in(word) && (AccountFlag::Bids.is_set_in(word)
        != AccountFlag::Asks.is_set_in(word))
}

proof fn lemma_word_bits(
    a: u64, b: u64, c: u64, d: u64, e: u64, f: u64, g: u64, h: u64, i: u64, j: u64,
)
    by (bit_vector)
    requires
        a == 0 || a == 0x1,
        b == 0 || b == 0x2,
        c == 0 || c == 0x4,
        d == 0 || d == 0x8,
        e == 0 || e == 0x10,
        f == 0 || f == 0x20,
        g == 0 || g == 0x40,
        h == 0 || h == 0x80,
        i == 0 || i == 0x100,
        j == 0 || j == 0x200,
    ensures
        ({
            let w = a | b | c | d | e | f | g | h | i | j;
            &&& (w & 0x1 != 0) == (a != 0)
            &&& (w & 0x2 != 0) == (b != 0)
            &&& (w & 0x4 != 0) == (c != 0)
            &&& (w & 0x8 != 0) == (d != 0)
            &&& (w & 0x10 != 0) == (e != 0)
            &&& (w & 0x20 != 0) == (f != 0)
            &&& (w & 0x40 != 0) == (g != 0)
            &&& (w & 0x80 != 0) == (h != 0)
            &&& (w & 0x100 != 0) == (i != 0)
            &&& (w & 0x200 != 0) == (j != 0)
            &&& w == a + b + c + d + e + f + g + h + i + j
        }),
{
}

/// Each flag is set in the word of a set exactly when the set holds it: the
/// word and the set say the same.
pub proof fn lemma_flag_word_round_trip(set: Set<AccountFlag>, flag: AccountFlag)
    ensures
        flag.is_set_in(flag_word(set)) == set.contains(flag),
{
    lemma_word_bits(
        if set.contains(AccountFlag::Initialized) { 0x1u64 } else { 0 },
        if set.contains(AccountFlag::Market) { 0x2u64 } else { 0 },
        if set.contains(AccountFlag::OpenOrders) { 0x4u64 } else { 0 },
        if set.contains(AccountFlag::RequestQueue) { 0x8u64 } else { 0 },
        if set.contains(AccountFlag::EventQueue) { 0x10u64 } else { 0 },
        if set.contains(AccountFlag::Bids) { 0x20u64 } else { 0 },
        if set.contains(AccountFlag::Asks) { 0x40u64 } else { 0 },
        if set.contains(AccountFlag::Disabled) { 0x80u64 } else { 0 },
        if set.contains(AccountFlag::Closed) { 0x100u64 } else { 0 },
        if set.contains(AccountFlag::Permissioned) { 0x200u64 } else { 0 },
    );
}

/// Two sets of flags give the same word exactly when they are the same set.
pub proof fn lemma_flag_word_injective(a: Set<AccountFlag>, b: Set<AccountFlag>)
    ensures
        flag_word(a) == flag_word(b) <==> a =~= b,
{
    if flag_word(a) == flag_word(b) {
        assert forall|f: AccountFlag| a.contains(f) == b.contains(f) by {
            lemma_flag_word_round_trip(a, f);
            lemma_flag_word_round_trip(b, f);
        }
    }
}

/// A set of flags gives the market's flag word exactly when it is the set
/// of initialized, market and permissioned: one flag more or one less and
/// the word differs.
pub proof fn lemma_market_flags_exact(set: Set<AccountFlag>)
    ensures
        flag_word(set) == MARKET_FLAGS <==> set =~= set![
            AccountFlag::Initialized,
            AccountFlag::Market,
            AccountFlag::Permissioned,
        ],
{
    let required = set![AccountFlag::Initialized, AccountFlag::Market, AccountFlag::Permissioned];
    assert(flag_word(required) == MARKET_FLAGS) by {
        assert(0x1u64 | 0x2u64 | 0 | 0 | 0 | 0 | 0 | 0 | 0 | 0x200u64 == 0x203u64) by (bit_vector);
    }
    lemma_flag_word_injective(set, required);
}

/// A set of flags gives the event queue's flag word exactly when it is the
/// set of initialized and event queue.
pub proof fn lemma_event_queue_flags_exact(set: Set<AccountFlag>)
    ensures
        flag_word(set) == EVENT_QUEUE_FLAGS <==> set =~= set![
            AccountFlag::Initialized,
            AccountFlag::EventQueue,
        ],
{
    let required = set![AccountFlag::Initialized, AccountFlag::EventQueue];
    assert(flag_word(required) == EVENT_QUEUE_FLAGS) by {
        assert(0x1u64 | 0 | 0 | 0 | 0x10u64 | 0 | 0 | 0 | 0 | 0 == 0x11u64) by (bit_vector);
    }
    lemma_flag_word_injective(set, required);
}

/// A set of flags passes as a slab's exactly when it holds initialized and
/// one of bids and asks, not both.
pub proof fn lemma_slab_flags_one_side(set: Set<AccountFlag>)
    ensures
        slab_flags_ok(flag_word(set)) <==> set.contains(AccountFlag::Initialized) && (
        set.contains(AccountFlag::Bids) != set.contains(AccountFlag::Asks)),
{
    lemma_flag_word_round_trip(set, AccountFlag::Initialized);
    lemma_flag_word_round_trip(set, AccountFlag::Bids);
    lemma_flag_word_round_trip(set, AccountFlag::Asks);
}

} // verus!
