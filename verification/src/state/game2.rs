//! The layout of the account of a game, field by field, for the cursors.
use crate::ser::CursorType;
use vstd::prelude::*;

verus! {

pub const IS_INITIALIZED: u8 = 0;

pub const VERSION: u8 = 1;

pub const TITLE: u8 = 2;

pub const BUNDLE_ADDR: u8 = 3;

pub const STAKE_ACCOUNT: u8 = 4;

pub const OWNER: u8 = 5;

pub const TOKEN_MINT: u8 = 6;

pub const TRANSACTOR_ADDR: u8 = 7;

pub const ACCESS_VERSION: u8 = 8;

pub const SETTLE_VERSION: u8 = 9;

pub const MAX_PLAYERS: u8 = 10;

pub const PLAYERS: u8 = 11;

pub const DEPOSITS: u8 = 12;

pub const SERVERS: u8 = 13;

pub const DATA_LEN: u8 = 14;

pub const DATA: u8 = 15;

pub const VOTES: u8 = 16;

pub const UNLOCK_TIME: u8 = 17;

pub const ENTRY_TYPE: u8 = 18;

pub const RECIPIENT_ADDR: u8 = 19;

pub const CHECKPOINT: u8 = 20;

pub const ENTRY_LOCK: u8 = 21;

pub const BONUSES: u8 = 22;

pub const BALANCES: u8 = 23;

pub const PLAYER_ADDR: u8 = 0;

pub const PLAYER_POSITION: u8 = 1;

pub const PLAYER_ACCESS_VERSION: u8 = 2;

pub const PLAYER_VERIFY_KEY: u8 = 3;

pub const DEPOSIT_ADDR: u8 = 0;

pub const DEPOSIT_AMOUNT: u8 = 1;

pub const DEPOSIT_ACCESS_VERSION: u8 = 2;

pub const DEPSOIT_SETTLE_VERSION: u8 = 3;

pub const DEPSOIT_STATUS: u8 = 4;

pub const SERVER_ADDR: u8 = 0;

pub const SERVER_ENDPOINT: u8 = 1;

pub const SERVER_ACCESS_VERSION: u8 = 2;

pub const SERVER_VERIFY_KEY: u8 = 3;

/// A layout as the contracts speak of it.
pub enum Shape {
    Bool,
    U8,
    U16,
    U32,
    Usize,
    U64,
    String,
    Struct(Seq<Shape>),
    Vec(Box<Shape>),
    StaticVec,
    Option(Box<Shape>),
    Enum(Seq<Shape>),
    Pubkey,
    Empty,
}

/// The shape of a layout.
pub open spec fn shape_of(ct: CursorType) -> Shape
    decreases ct, 0nat, 0nat,
{
    match ct {
        CursorType::Bool => Shape::Bool,
        CursorType::U8 => Shape::U8,
        CursorType::U16 => Shape::U16,
        CursorType::U32 => Shape::U32,
        CursorType::Usize => Shape::Usize,
        CursorType::U64 => Shape::U64,
        CursorType::String => Shape::String,
        CursorType::Struct(fields) => Shape::Struct(shapes_of(fields@, fields@.len())),
        CursorType::Vec(item) => Shape::Vec(Box::new(shape_of(*item))),
        CursorType::StaticVec => Shape::StaticVec,
        CursorType::Option(inner) => Shape::Option(Box::new(shape_of(*inner))),
        CursorType::Enum(variants) => Shape::Enum(shapes_of(variants@, variants@.len())),
        CursorType::Pubkey => Shape::Pubkey,
        CursorType::Empty => Shape::Empty,
    }
}

/// The shapes of the first `k` layouts.
pub open spec fn shapes_of(fields: Seq<CursorType>, k: nat) -> Seq<Shape>
    decreases fields, 1nat, k,
{
    if k == 0 || k > fields.len() {
        Seq::empty()
    } else {
        shapes_of(fields, (k - 1) as nat).push(shape_of(fields[k - 1]))
    }
}

/// Layouts of given shapes have those shapes together.
proof fn lemma_shapes(fields: Seq<CursorType>, shapes: Seq<Shape>, k: nat)
    requires
        k <= fields.len(),
        fields.len() == shapes.len(),
        forall|i: int| 0 <= i < fields.len() ==> shape_of(#[trigger] fields[i]) == shapes[i],
    ensures
        shapes_of(fields, k) == shapes.take(k as int),
    decreases k,
{
    if k > 0 {
        lemma_shapes(fields, shapes, (k - 1) as nat);
        assert(shapes.take(k as int) =~= shapes.take(k - 1).push(shapes[k - 1]));
    } else {
        assert(shapes.take(0) =~= Seq::empty());
    }
}

/// A structure of the fields.
fn structure(fields: Vec<CursorType>, Ghost(shapes): Ghost<Seq<Shape>>) -> (r: CursorType)
    requires
        fields@.len() == shapes.len(),
        forall|i: int| 0 <= i < fields@.len() ==> shape_of(#[trigger] fields@[i]) == shapes[i],
    ensures
        shape_of(r) == Shape::Struct(shapes),
{
    proof {
        lemma_shapes(fields@, shapes, fields@.len());
        assert(shapes.take(shapes.len() as int) =~= shapes);
    }
    CursorType::mk_struct(fields)
}

/// A choice among the variants.
fn choice(variants: Vec<CursorType>, Ghost(shapes): Ghost<Seq<Shape>>) -> (r: CursorType)
    requires
        variants@.len() == shapes.len(),
        forall|i: int| 0 <= i < variants@.len() ==> shape_of(#[trigger] variants@[i]) == shapes[i],
    ensures
        shape_of(r) == Shape::Enum(shapes),
{
    proof {
        lemma_shapes(variants@, shapes, variants@.len());
        assert(shapes.take(shapes.len() as int) =~= shapes);
    }
    CursorType::mk_enum(variants)
}

/// A vector of structures.
pub open spec fn list_of(fields: Seq<Shape>) -> Shape {
    Shape::Vec(Box::new(Shape::Struct(fields)))
}

/// A choice among `n` variants that hold nothing.
pub open spec fn plain_choice(n: nat) -> Shape {
    Shape::Enum(Seq::new(n, |i: int| Shape::Empty))
}

/// The shape of a player as the account lists one.
pub open spec fn player_shape() -> Seq<Shape> {
    seq![Shape::Pubkey, Shape::U16, Shape::U64, Shape::String]
}

/// The shape of a deposit.
pub open spec fn deposit_shape() -> Seq<Shape> {
    seq![Shape::Pubkey, Shape::U64, Shape::U64, Shape::U64, plain_choice(4)]
}

/// The shape of a server.
pub open spec fn server_shape() -> Seq<Shape> {
    seq![Shape::Pubkey, Shape::String, Shape::U64, Shape::String]
}

/// The shape of a vote.
pub open spec fn vote_shape() -> Seq<Shape> {
    seq![Shape::Pubkey, Shape::Pubkey, Shape::U8]
}

/// The shape of the entry type: two bounds, a price, or a collection.
pub open spec fn entry_type_shape() -> Shape {
    Shape::Enum(
        seq![
            Shape::Struct(seq![Shape::U64, Shape::U64]),
            Shape::Struct(seq![Shape::U64]),
            Shape::Struct(seq![Shape::String]),
        ],
    )
}

/// The shape of a bonus.
pub open spec fn bonus_shape() -> Seq<Shape> {
    seq![Shape::String, Shape::Pubkey, Shape::Pubkey, Shape::U64]
}

/// The shape of a balance.
pub open spec fn balance_shape() -> Seq<Shape> {
    seq![Shape::U64, Shape::U64]
}

/// The shape of the account of a game, field by field in the order of the field
/// indices.
pub open spec fn game_shape() -> Shape {
    Shape::Struct(
        seq![
            Shape::Bool,
            Shape::String,
            Shape::String,
            Shape::Pubkey,
            Shape::Pubkey,
            Shape::Pubkey,
            Shape::Pubkey,
            Shape::Option(Box::new(Shape::Pubkey)),
            Shape::U64,
            Shape::U64,
            Shape::U16,
            list_of(player_shape()),
            list_of(deposit_shape()),
            list_of(server_shape()),
            Shape::U32,
            Shape::StaticVec,
            list_of(vote_shape()),
            Shape::Option(Box::new(Shape::U64)),
            entry_type_shape(),
            Shape::Pubkey,
            Shape::StaticVec,
            plain_choice(4),
            list_of(bonus_shape()),
            list_of(balance_shape()),
        ],
    )
}

/// A choice among four variants that hold nothing.
fn four_plain() -> (r: CursorType)
    ensures
        shape_of(r) == plain_choice(4),
{
    let mut variants: Vec<CursorType> = Vec::new();
    variants.push(CursorType::Empty);
    variants.push(CursorType::Empty);
    variants.push(CursorType::Empty);
    variants.push(CursorType::Empty);
    let ghost shapes = Seq::new(4, |i: int| Shape::Empty);
    choice(variants, Ghost(shapes))
}

/// A vector of structures of the fields.
fn list(fields: Vec<CursorType>, Ghost(shapes): Ghost<Seq<Shape>>) -> (r: CursorType)
    requires
        fields@.len() == shapes.len(),
        forall|i: int| 0 <= i < fields@.len() ==> shape_of(#[trigger] fields@[i]) == shapes[i],
    ensures
        shape_of(r) == list_of(shapes),
{
    CursorType::mk_vec(structure(fields, Ghost(shapes)))
}

/// The layout of the account of a game.
pub fn create_game_cursor_type() -> (r: CursorType)
    ensures
        shape_of(r) == game_shape(),
{
    let mut player: Vec<CursorType> = Vec::new();
    player.push(CursorType::Pubkey);
    player.push(CursorType::U16);
    player.push(CursorType::U64);
    player.push(CursorType::String);
    let players: CursorType = list(player, Ghost(player_shape()));

    let mut deposit: Vec<CursorType> = Vec::new();
    deposit.push(CursorType::Pubkey);
    deposit.push(CursorType::U64);
    deposit.push(CursorType::U64);
    deposit.push(CursorType::U64);
    deposit.push(four_plain());
    let deposits: CursorType = list(deposit, Ghost(deposit_shape()));

    let mut server: Vec<CursorType> = Vec::new();
    server.push(CursorType::Pubkey);
    server.push(CursorType::String);
    server.push(CursorType::U64);
    server.push(CursorType::String);
    let servers: CursorType = list(server, Ghost(server_shape()));

    let mut vote: Vec<CursorType> = Vec::new();
    vote.push(CursorType::Pubkey);
    vote.push(CursorType::Pubkey);
    vote.push(CursorType::U8);
    let votes: CursorType = list(vote, Ghost(vote_shape()));

    let mut cash: Vec<CursorType> = Vec::new();
    cash.push(CursorType::U64);
    cash.push(CursorType::U64);
    let mut ticket: Vec<CursorType> = Vec::new();
    ticket.push(CursorType::U64);
    let mut gating: Vec<CursorType> = Vec::new();
    gating.push(CursorType::String);
    let mut entries: Vec<CursorType> = Vec::new();
    let ghost cash_shape = seq![Shape::U64, Shape::U64];
    let ghost ticket_shape = seq![Shape::U64];
    let ghost gating_shape = seq![Shape::String];
    let cash_type: CursorType = structure(cash, Ghost(cash_shape));
    let ticket_type: CursorType = structure(ticket, Ghost(ticket_shape));
    let gating_type: CursorType = structure(gating, Ghost(gating_shape));
    entries.push(cash_type);
    entries.push(ticket_type);
    entries.push(gating_type);
    let ghost entry_shapes = entry_type_shape()->Enum_0;
    let entry_type: CursorType = choice(entries, Ghost(entry_shapes));

    let mut bonus: Vec<CursorType> = Vec::new();
    bonus.push(CursorType::String);
    bonus.push(CursorType::Pubkey);
    bonus.push(CursorType::Pubkey);
    bonus.push(CursorType::U64);
    let bonuses: CursorType = list(bonus, Ghost(bonus_shape()));

    let mut balance: Vec<CursorType> = Vec::new();
    balance.push(CursorType::U64);
    balance.push(CursorType::U64);
    let balances: CursorType = list(balance, Ghost(balance_shape()));

    let mut fields: Vec<CursorType> = Vec::new();
    fields.push(CursorType::Bool);
    fields.push(CursorType::String);
    fields.push(CursorType::String);
    fields.push(CursorType::Pubkey);
    fields.push(CursorType::Pubkey);
    fields.push(CursorType::Pubkey);
    fields.push(CursorType::Pubkey);
    fields.push(CursorType::mk_option(CursorType::Pubkey));
    fields.push(CursorType::U64);
    fields.push(CursorType::U64);
    fields.push(CursorType::U16);
    fields.push(players);
    fields.push(deposits);
    fields.push(servers);
    fields.push(CursorType::U32);
    fields.push(CursorType::StaticVec);
    fields.push(votes);
    fields.push(CursorType::mk_option(CursorType::U64));
    fields.push(entry_type);
    fields.push(CursorType::Pubkey);
    fields.push(CursorType::StaticVec);
    fields.push(four_plain());
    fields.push(bonuses);
    fields.push(balances);
    let ghost shapes = game_shape()->Struct_0;
    structure(fields, Ghost(shapes))
}

} // verus!
