//! The game database stream: a 16-byte magic tag followed by length-prefixed
//! game records. The `Encoder` grows such a stream in memory; the `Decoder`
//! walks one forward, one record at a time, telling clean end-of-stream
//! apart from a truncated record.

use vstd::prelude::*;
use crate::bytes::{pow256, spec_le_bytes, push_le64, lemma_le_bytes_len};
use crate::errors::DataError;
use crate::game::{Game, GameView, wf_game};
use crate::recordcodec::{
    spec_game_body, spec_parse_field, spec_parse_game, encode_game, decode_game, push_bytes,
    take_field, lemma_parse_field_inv, lemma_parse_game_inv,
};

verus! {

/// The 16-byte tag at the head of a game database.
pub open spec fn spec_db_magic() -> Seq<u8> {
    seq![80u8, 71u8, 78u8, 83u8, 85u8, 88u8, 0u8, 0u8, 0u8, 0u8, 0u8, 0u8, 0u8, 0u8, 0u8, 0u8]
}

/// One record on the stream: an 8-byte little-endian body length, then the
/// body.
pub open spec fn spec_record_bytes(g: GameView) -> Seq<u8> {
    spec_le_bytes(spec_game_body(g).len() as int, 8) + spec_game_body(g)
}

/// The records of a sequence of games, in order.
pub open spec fn spec_records_bytes(games: Seq<GameView>) -> Seq<u8>
    decreases games.len(),
{
    if games.len() == 0 {
        Seq::empty()
    } else {
        spec_record_bytes(games[0]) + spec_records_bytes(games.drop_first())
    }
}

/// A whole game database: magic, then the records.
pub open spec fn spec_db_bytes(games: Seq<GameView>) -> Seq<u8> {
    spec_db_magic() + spec_records_bytes(games)
}

/// Reads a record stream: every record must parse as a game and the
/// stream must end exactly at a record boundary.
pub open spec fn spec_parse_games(b: Seq<u8>) -> Option<Seq<GameView>>
    decreases b.len(),
{
    if b.len() == 0 {
        Some(Seq::empty())
    } else {
        match spec_parse_field(b) {
            None => None,
            Some((rec, rest)) => if rest.len() < b.len() {
                match spec_parse_game(rec) {
                    None => None,
                    Some(g) => match spec_parse_games(rest) {
                        None => None,
                        Some(gs) => Some(seq![g] + gs),
                    },
                }
            } else {
                None
            },
        }
    }
}

/// Reads a whole database: the magic, then the record stream.
pub open spec fn spec_parse_db(b: Seq<u8>) -> Option<Seq<GameView>> {
    if b.len() >= 16 && b.take(16) == spec_db_magic() {
        spec_parse_games(b.skip(16))
    } else {
        None
    }
}

/// A game encoded from a `Game` value always fits its length prefix.
pub open spec fn sized_game(g: GameView) -> bool {
    spec_game_body(g).len() < pow256(8)
}

/// Appending one game's record appends its bytes.
pub proof fn lemma_records_bytes_push(games: Seq<GameView>, g: GameView)
    ensures
        spec_records_bytes(games.push(g)) == spec_records_bytes(games) + spec_record_bytes(g),
    decreases games.len(),
{
    let s = games.push(g);
    assert(s[0] == if games.len() == 0 {
        g
    } else {
        games[0]
    });
    if games.len() == 0 {
        assert(s.drop_first() =~= Seq::<GameView>::empty());
        assert(spec_records_bytes(s) == spec_record_bytes(s[0]) + spec_records_bytes(
            s.drop_first(),
        ));
        assert(spec_records_bytes(s) =~= spec_records_bytes(games) + spec_record_bytes(g));
    } else {
        assert(s.drop_first() =~= games.drop_first().push(g));
        lemma_records_bytes_push(games.drop_first(), g);
        assert(spec_records_bytes(s) == spec_record_bytes(games[0]) + (spec_records_bytes(
            games.drop_first(),
        ) + spec_record_bytes(g)));
        assert(spec_records_bytes(s) =~= spec_records_bytes(games) + spec_record_bytes(g));
    }
}

/// Reading a record stream back gives the games that produced it.
pub proof fn lemma_parse_games_inv(games: Seq<GameView>)
    requires
        forall|i: int| 0 <= i < games.len() ==> wf_game(#[trigger] games[i]),
        forall|i: int| 0 <= i < games.len() ==> sized_game(#[trigger] games[i]),
    ensures
        spec_parse_games(spec_records_bytes(games)) == Some(games),
    decreases games.len(),
{
    if games.len() > 0 {
        let g = games[0];
        let tail = games.drop_first();
        let b = spec_records_bytes(games);
        lemma_le_bytes_len(spec_game_body(g).len() as int, 8);
        assert(b =~= crate::recordcodec::spec_field_bytes(spec_game_body(g))
            + spec_records_bytes(tail));
        lemma_parse_field_inv(spec_game_body(g), spec_records_bytes(tail));
        lemma_parse_game_inv(g);
        lemma_parse_games_inv(tail);
        assert(b.len() > 0);
        assert(seq![g] + tail =~= games);
    }
}

/// Database round trip: reading back the serialized form of any sequence
/// of well-formed games gives the same games in the same order.
pub proof fn lemma_db_round_trip(games: Seq<GameView>)
    requires
        forall|i: int| 0 <= i < games.len() ==> wf_game(#[trigger] games[i]),
        forall|i: int| 0 <= i < games.len() ==> sized_game(#[trigger] games[i]),
    ensures
        spec_parse_db(spec_db_bytes(games)) == Some(games),
{
    let b = spec_db_bytes(games);
    assert(b.take(16) =~= spec_db_magic());
    assert(b.skip(16) =~= spec_records_bytes(games));
    lemma_parse_games_inv(games);
}

/// The database magic tag as bytes.
pub fn db_magic() -> (r: Vec<u8>)
    ensures
        r@ == spec_db_magic(),
{
    let mut v: Vec<u8> = Vec::new();
    v.push(80);
    v.push(71);
    v.push(78);
    v.push(83);
    v.push(85);
    v.push(88);
    let mut i: usize = 0;
    while i < 10
        invariant
            i <= 10,
            v@.len() == 6 + i,
            v@ == spec_db_magic().take(6 + i as int),
        decreases 10 - i,
    {
        v.push(0);
        proof {
            assert(spec_db_magic().take(6 + i as int).push(0u8) =~= spec_db_magic().take(
                7 + i as int,
            ));
        }
        i = i + 1;
    }
    proof {
        assert(spec_db_magic().take(16) =~= spec_db_magic());
    }
    v
}

/// Grows a game database in memory: the magic once, then one
/// length-prefixed record per game written.
pub struct Encoder {
    buf: Vec<u8>,
    games: Ghost<Seq<GameView>>,
}

impl Encoder {
    /// The games written so far.
    pub closed spec fn games(&self) -> Seq<GameView> {
        self.games@
    }

    /// The bytes produced so far.
    pub closed spec fn buffer(&self) -> Seq<u8> {
        self.buf@
    }

    /// The encoder's bytes are exactly the database of its games.
    pub closed spec fn wf(&self) -> bool {
        self.buf@ == spec_db_bytes(self.games@)
    }

    /// What `wf` holds closed, spelled out for callers: a well-formed
    /// encoder's buffer is exactly the database of the games written, so
    /// `start` wrote the 16-byte magic and nothing else, each `write_game`
    /// appended that game's length-prefixed record, and `bytes_written`
    /// counts exactly those bytes.
    pub proof fn lemma_buffer_is_db(&self)
        requires
            self.wf(),
        ensures
            self.buffer() == spec_db_bytes(self.games()),
    {
    }

    /// The encoder-to-decoder round trip, closed end to end: the bytes a
    /// well-formed encoder produced parse back as exactly the games that
    /// were written, in order.
    pub proof fn lemma_round_trips(&self)
        requires
            self.wf(),
            forall|i: int| 0 <= i < self.games().len() ==> wf_game(#[trigger] self.games()[i]),
            forall|i: int| 0 <= i < self.games().len() ==> sized_game(#[trigger] self.games()[i]),
        ensures
            spec_parse_db(self.buffer()) == Some(self.games()),
    {
        self.lemma_buffer_is_db();
        lemma_db_round_trip(self.games());
    }

    /// Opens an empty database: writes the magic.
    pub fn start() -> (r: Encoder)
        ensures
            r.wf(),
            r.games() == Seq::<GameView>::empty(),
    {
        let buf = db_magic();
        proof {
            assert(spec_db_magic() + Seq::<u8>::empty() =~= spec_db_magic());
        }
        Encoder { buf, games: Ghost(Seq::empty()) }
    }

    /// Appends one game as a length-prefixed record.
    pub fn write_game(&mut self, game: &Game)
        requires
            old(self).wf(),
            wf_game(game@),
        ensures
            final(self).wf(),
            final(self).games() == old(self).games().push(game@),
            sized_game(game@),
    {
        let body: Vec<u8> = encode_game(game);
        proof {
            assert(pow256(8) == 0x10000000000000000) by {
                reveal_with_fuel(pow256, 9);
            }
        }
        push_le64(&mut self.buf, body.len() as u64);
        push_bytes(&mut self.buf, &body);
        proof {
            self.games@ = self.games@.push(game@);
            lemma_records_bytes_push(old(self).games@, game@);
            assert(self.buf@ =~= spec_db_bytes(self.games@));
        }
    }

    /// How many bytes the database holds so far.
    pub fn bytes_written(&self) -> (r: usize)
        ensures
            r == self.buffer().len(),
    {
        self.buf.len()
    }

    /// A view of the bytes produced so far.
    pub fn as_bytes(&self) -> (r: &Vec<u8>)
        ensures
            r@ == self.buffer(),
    {
        &self.buf
    }

    /// Hands the finished database over.
    pub fn into_bytes(self) -> (r: Vec<u8>)
        ensures
            r@ == self.buffer(),
    {
        self.buf
    }
}

/// Walks a game database forward, one record at a time.
pub struct Decoder {
    data: Vec<u8>,
    pos: usize,
}

impl Decoder {
    /// The whole input.
    pub closed spec fn input(&self) -> Seq<u8> {
        self.data@
    }

    /// The bytes not yet consumed.
    pub closed spec fn remaining(&self) -> Seq<u8> {
        self.data@.skip(self.pos as int)
    }

    /// The cursor sits inside the input, past the magic.
    pub closed spec fn wf(&self) -> bool {
        16 <= self.pos <= self.data@.len()
    }

    /// Opens a database: validates the magic, leaving the cursor on the
    /// first record. Fails exactly when the input is shorter than the
    /// magic or starts with different bytes.
    pub fn start(data: Vec<u8>) -> (r: Result<Decoder, DataError>)
        ensures
            match r {
                Ok(d) => {
                    &&& d.wf()
                    &&& d.input() == data@
                    &&& data@.len() >= 16
                    &&& data@.take(16) == spec_db_magic()
                    &&& d.remaining() == data@.skip(16)
                },
                Err(e) => {
                    &&& !(data@.len() >= 16 && data@.take(16) == spec_db_magic())
                    &&& e == DataError::Format
                },
            },
    {
        if data.len() < 16 {
            proof {
                assert(data@.len() < 16);
            }
            return Err(DataError::Format);
        }
        let magic = db_magic();
        let mut i: usize = 0;
        while i < 16
            invariant
                i <= 16,
                data@.len() >= 16,
                magic@ == spec_db_magic(),
                forall|j: int| 0 <= j < i ==> data@[j] == spec_db_magic()[j],
            decreases 16 - i,
        {
            if data[i] != magic[i] {
                proof {
                    assert(data@.take(16)[i as int] != spec_db_magic()[i as int]);
                }
                return Err(DataError::Format);
            }
            i = i + 1;
        }
        proof {
            assert(data@.take(16) =~= spec_db_magic());
        }
        Ok(Decoder { data, pos: 16 })
    }

    /// Reads the next raw record body, or `None` at a clean end of input.
    /// A record cut short by the end of the input is an error, distinct
    /// from the clean end.
    pub fn read_game_raw(&mut self) -> (r: Result<Option<Vec<u8>>, DataError>)
        requires
            old(self).wf(),
        ensures
            final(self).wf(),
            final(self).input() == old(self).input(),
            match r {
                Ok(None) => {
                    &&& old(self).remaining().len() == 0
                    &&& final(self).remaining() == old(self).remaining()
                },
                Ok(Some(v)) => spec_parse_field(old(self).remaining()) == Some(
                    (v@, final(self).remaining()),
                ),
                Err(e) => {
                    &&& old(self).remaining().len() > 0
                    &&& spec_parse_field(old(self).remaining()) is None
                    &&& e == DataError::Format
                },
            },
    {
        if self.pos == self.data.len() {
            proof {
                assert(self.data@.skip(self.pos as int).len() == 0);
            }
            return Ok(None);
        }
        match take_field(&self.data, &mut self.pos) {
            Ok(v) => Ok(Some(v)),
            Err(e) => Err(e),
        }
    }

    /// Reads and deserializes the next game, or `None` at a clean end of
    /// input. Succeeds exactly when the next record parses as a game.
    pub fn read_game(&mut self) -> (r: Result<Option<Game>, DataError>)
        requires
            old(self).wf(),
        ensures
            final(self).wf(),
            final(self).input() == old(self).input(),
            match r {
                Ok(None) => {
                    &&& old(self).remaining().len() == 0
                    &&& final(self).remaining() == old(self).remaining()
                },
                Ok(Some(g)) => {
                    &&& wf_game(g@)
                    &&& sized_game(g@)
                    &&& old(self).remaining() == spec_record_bytes(g@) + final(self).remaining()
                    &&& spec_parse_field(old(self).remaining()) == Some(
                        (spec_game_body(g@), final(self).remaining()),
                    )
                },
                Err(e) => {
                    &&& old(self).remaining().len() > 0
                    &&& (spec_parse_field(old(self).remaining()) is None || spec_parse_game(
                        spec_parse_field(old(self).remaining()).unwrap().0,
                    ) is None)
                    &&& e == DataError::Format
                },
            },
    {
        let raw: Option<Vec<u8>> = match self.read_game_raw() {
            Ok(v) => v,
            Err(e) => {
                return Err(e);
            },
        };
        match raw {
            None => Ok(None),
            Some(bytes) => {
                match decode_game(&bytes) {
                    Ok(g) => {
                        proof {
                            crate::recordcodec::lemma_parse_game_unique(bytes@, g@);
                            lemma_record_shape(old(self).remaining(), bytes@, final(self).remaining());
                        }
                        Ok(Some(g))
                    },
                    Err(e) => Err(e),
                }
            },
        }
    }

    /// Hands the decoder to an iterator-shaped reader of raw records.
    pub fn raw_iter(self) -> (r: RawGameIter)
        requires
            self.wf(),
        ensures
            r.inner.wf(),
            r.inner.remaining() == self.remaining(),
    {
        RawGameIter { inner: self }
    }
}

/// When a field parse succeeds, the input splits as the record of that
/// field's bytes followed by the leftover.
proof fn lemma_record_shape(b: Seq<u8>, body: Seq<u8>, rest: Seq<u8>)
    requires
        spec_parse_field(b) == Some((body, rest)),
    ensures
        body.len() < pow256(8),
        b == spec_le_bytes(body.len() as int, 8) + body + rest,
{
    crate::recordcodec::lemma_parse_field_complete(b);
    assert(b =~= spec_le_bytes(body.len() as int, 8) + body + rest);
}

/// Reads raw records off a decoder, iterator-style.
pub struct RawGameIter {
    pub inner: Decoder,
}

impl RawGameIter {
    /// The next raw record body, `None` at the clean end of input.
    pub fn next(&mut self) -> (r: Result<Option<Vec<u8>>, DataError>)
        requires
            old(self).inner.wf(),
        ensures
            final(self).inner.wf(),
            match r {
                Ok(None) => old(self).inner.remaining().len() == 0,
                Ok(Some(v)) => spec_parse_field(old(self).inner.remaining()) == Some(
                    (v@, final(self).inner.remaining()),
                ),
                Err(e) => {
                    &&& spec_parse_field(old(self).inner.remaining()) is None
                    &&& e == DataError::Format
                },
            },
    {
        self.inner.read_game_raw()
    }
}

/// The games of a sequence of `Game` values, as views.
pub open spec fn spec_views(gs: Seq<Game>) -> Seq<GameView> {
    gs.map_values(|g: Game| g@)
}

/// Decodes a whole in-memory database into its games. Succeeds exactly on
/// the byte strings that are a database of well-formed games, and gives
/// back those games in order.
#[verifier::loop_isolation(false)]
pub fn decode_bin(data: Vec<u8>) -> (r: Result<Vec<Game>, DataError>)
    ensures
        match r {
            Ok(gs) => spec_parse_db(data@) == Some(spec_views(gs@)),
            Err(e) => {
                &&& spec_parse_db(data@) is None
                &&& e == DataError::Format
            },
        },
{
    let ghost input = data@;
    let mut dec: Decoder = match Decoder::start(data) {
        Ok(d) => d,
        Err(e) => {
            return Err(e);
        },
    };
    let ghost rest0 = dec.remaining();
    let mut games: Vec<Game> = Vec::new();
    loop
        invariant
            dec.wf(),
            match spec_parse_games(dec.remaining()) {
                Some(gs) => spec_parse_games(rest0) == Some(spec_views(games@) + gs),
                None => spec_parse_games(rest0) is None,
            },
        decreases dec.remaining().len(),
    {
        let ghost rem_before = dec.remaining();
        let g: Option<Game> = match dec.read_game() {
            Ok(v) => v,
            Err(e) => {
                proof {
                    match spec_parse_field(rem_before) {
                        Some((rec, rest)) => {
                            assert(spec_parse_game(rec) is None);
                        },
                        None => {},
                    }
                    assert(spec_parse_games(rem_before) is None);
                }
                return Err(e);
            },
        };
        match g {
            None => {
                proof {
                    assert(spec_parse_games(rem_before) == Some(Seq::<GameView>::empty()));
                    assert(spec_views(games@) + Seq::<GameView>::empty() =~= spec_views(games@));
                }
                return Ok(games);
            },
            Some(game) => {
                games.push(game);
                proof {
                    lemma_parse_game_inv(game@);
                    lemma_le_bytes_len(spec_game_body(game@).len() as int, 8);
                    assert(dec.remaining().len() < rem_before.len());
                    let ghost old_games = games@.drop_last();
                    match spec_parse_games(dec.remaining()) {
                        Some(gs) => {
                            assert(spec_views(old_games) + (seq![game@] + gs) =~= spec_views(
                                games@,
                            ) + gs);
                        },
                        None => {},
                    }
                }
            },
        }
    }
}

} // verus!
