//! The two sides and what each player owns.

use std::rc::Rc;
use vstd::prelude::*;

use crate::location::LocationCoords;
use crate::piece::{Piece, PieceType};

verus! {

/// A side of the game.
#[derive(Clone, Copy, Debug, PartialEq, Eq, Structural)]
pub enum Color {
    Black,
    White,
}

impl Color {
    /// The direction along the ranks in which this side's pawns advance.
    pub open spec fn forward(self) -> int {
        match self {
            Color::White => -1,
            Color::Black => 1,
        }
    }

    /// The other side.
    pub open spec fn opponent(self) -> Color {
        match self {
            Color::White => Color::Black,
            Color::Black => Color::White,
        }
    }

    /// The letter that marks this side's pieces where a board is drawn.
    pub open spec fn mark(self) -> char {
        match self {
            Color::White => 'O',
            Color::Black => 'X',
        }
    }

    /// The direction along the ranks in which this side's pawns advance.
    pub fn pawn_direction(self) -> (d: i32)
        ensures
            d == self.forward(),
    {
        match self {
            Color::White => -1,
            Color::Black => 1,
        }
    }

    /// The other side.
    pub fn other(self) -> (c: Color)
        ensures
            c == self.opponent(),
    {
        match self {
            Color::White => Color::Black,
            Color::Black => Color::White,
        }
    }

    /// The letter that marks this side's pieces where a board is drawn.
    pub fn piece_char(self) -> (c: char)
        ensures
            c == self.mark(),
    {
        match self {
            Color::White => 'O',
            Color::Black => 'X',
        }
    }
}

/// The number of pieces that a player sets out with.
pub const ROSTER_SIZE: usize = 16;

/// The kind of the `i`-th piece that a player is given: eight pawns, and behind them
/// rook, knight, bishop, queen, king, bishop, knight, rook.
pub open spec fn standard_piece_type(i: int) -> PieceType {
    if i < 8 {
        PieceType::Pawn
    } else if i == 8 || i == 15 {
        PieceType::Rook
    } else if i == 9 || i == 14 {
        PieceType::Knight
    } else if i == 10 || i == 13 {
        PieceType::Bishop
    } else if i == 11 {
        PieceType::Queen
    } else {
        PieceType::King
    }
}

/// The place of the king among the pieces that a player is given.
pub const KING_INDEX: usize = 12;

/// The identifier carries the marks of a random (version four) UUID: version nibble four,
/// variant bits one-zero.
pub open spec fn is_random_uuid(id: u128) -> bool {
    (id >> 76u128) & 0xfu128 == 4u128 && (id >> 62u128) & 0x3u128 == 2u128
}

/// Trusted: calls `uuid::Uuid::new_v4` and hands the identifier out as the integer that
/// `Uuid::as_u128` gives. `new_v4` draws 128 random bits from the operating system and
/// overwrites six of them with the version and the variant; the contract claims those six
/// bits and nothing of the others. Where the operating system has no random bits to give,
/// `new_v4` panics, and so does this function.
#[verifier::external_body]
fn new_id() -> (id: u128)
    ensures
        is_random_uuid(id),
{
    uuid::Uuid::new_v4().as_u128()
}

/// A player: who they are, which side they play, and their pieces. `roster` holds every
/// piece the player was ever given, each at an index that never changes; `pieces` lists
/// the indices of those still in play and `dead_pieces` those captured, in the order of
/// capture.
#[derive(Debug)]
pub struct Player {
    pub name: String,
    pub id: u128,
    pub roster: Vec<Piece>,
    pub pieces: Vec<usize>,
    pub dead_pieces: Vec<usize>,
    pub color: Color,
    pub pawn_direction: i32,
    pub piece_char: char,
    pub king: Option<usize>,
}

/// The mathematical content of a [`Player`].
pub struct PlayerView {
    pub name: Seq<char>,
    pub id: u128,
    pub roster: Seq<Piece>,
    pub pieces: Seq<usize>,
    pub dead_pieces: Seq<usize>,
    pub color: Color,
    pub pawn_direction: i32,
    pub piece_char: char,
    pub king: Option<usize>,
}

impl View for Player {
    type V = PlayerView;

    open spec fn view(&self) -> PlayerView {
        PlayerView {
            name: self.name@,
            id: self.id,
            roster: self.roster@,
            pieces: self.pieces@,
            dead_pieces: self.dead_pieces@,
            color: self.color,
            pawn_direction: self.pawn_direction,
            piece_char: self.piece_char,
            king: self.king,
        }
    }
}

/// A sequence with the element at `i` taken out and the last element put in its place.
pub open spec fn swap_removed(s: Seq<usize>, i: int) -> Seq<usize>
    recommends
        0 <= i < s.len(),
{
    s.update(i, s.last()).drop_last()
}

/// Taking an element out of a sequence without duplicates leaves exactly the other
/// elements, still without duplicates.
pub proof fn lemma_swap_removed(s: Seq<usize>, i: int)
    requires
        0 <= i < s.len(),
        s.no_duplicates(),
    ensures
        swap_removed(s, i).len() == s.len() - 1,
        swap_removed(s, i).no_duplicates(),
        forall|h: usize| #[trigger] swap_removed(s, i).contains(h) <==> s.contains(h) && h != s[i],
{
    let t = swap_removed(s, i);
    let n = s.len() as int;
    assert forall|h: usize| #[trigger] t.contains(h) <==> s.contains(h) && h != s[i] by {
        if t.contains(h) {
            let j = choose|j: int| 0 <= j < t.len() && t[j] == h;
            if j == i {
                assert(s[n - 1] == h);
            } else {
                assert(s[j] == h);
            }
        }
        if s.contains(h) && h != s[i] {
            let j = choose|j: int| 0 <= j < s.len() && s[j] == h;
            if j == n - 1 {
                assert(t[i] == h);
            } else {
                assert(t[j] == h);
            }
        }
    }
}

impl PlayerView {
    /// The piece at index `h` of the roster.
    pub open spec fn piece(self, h: usize) -> Piece {
        self.roster[h as int]
    }

    /// Whether the piece at index `h` of the roster is in play.
    pub open spec fn is_active(self, h: usize) -> bool {
        self.pieces.contains(h)
    }

    /// The player's records agree with each other: every piece of the roster belongs to the
    /// player's side and is listed exactly once, either as in play or as captured, and the
    /// king, where one is named, is a king of the roster.
    pub open spec fn wf(self) -> bool {
        &&& self.pawn_direction == self.color.forward()
        &&& self.piece_char == self.color.mark()
        &&& forall|h: int| 0 <= h < self.roster.len() ==> (#[trigger] self.roster[h]).owner == self.color
        &&& forall|i: int| 0 <= i < self.pieces.len() ==> #[trigger] self.pieces[i] < self.roster.len()
        &&& forall|i: int|
            0 <= i < self.dead_pieces.len() ==> #[trigger] self.dead_pieces[i] < self.roster.len()
        &&& self.pieces.no_duplicates()
        &&& self.dead_pieces.no_duplicates()
        &&& forall|h: usize|
            h < self.roster.len() ==> (#[trigger] self.pieces.contains(h)
                != #[trigger] self.dead_pieces.contains(h))
        &&& self.king matches Some(k) ==> k < self.roster.len() && self.roster[k as int].piece_type
            == PieceType::King
    }

    /// The player after the piece at index `h` has moved to `dest`.
    pub open spec fn with_move(self, h: usize, dest: LocationCoords) -> PlayerView {
        PlayerView {
            roster: self.roster.update(
                h as int,
                Piece { has_moved: true, location: Some(dest), ..self.roster[h as int] },
            ),
            ..self
        }
    }

    /// The player after the piece at index `h` has been put on `at` without having moved.
    pub open spec fn with_placement(self, h: usize, at: LocationCoords) -> PlayerView {
        PlayerView {
            roster: self.roster.update(
                h as int,
                Piece { location: Some(at), ..self.roster[h as int] },
            ),
            ..self
        }
    }

    /// The player after the piece at index `h` has been captured: it leaves the pieces in
    /// play, where the last one takes its place, joins the captured ones at their end, and
    /// stands on no cell any more.
    pub open spec fn with_capture(self, h: usize) -> PlayerView {
        PlayerView {
            roster: self.roster.update(h as int, Piece { location: None, ..self.roster[h as int] }),
            pieces: swap_removed(self.pieces, self.pieces.index_of(h)),
            dead_pieces: self.dead_pieces.push(h),
            ..self
        }
    }

    /// The `i`-th of the pieces that a player of this side is given, with identifier `id`.
    pub open spec fn new_piece(self, i: int, id: u128) -> Piece {
        Piece {
            piece_type: standard_piece_type(i),
            owner: self.color,
            id,
            has_moved: false,
            location: None,
        }
    }

    /// Whether `later` is this player after having been given the sixteen pieces: they
    /// follow what the roster held, all of them in play, none of them on the board yet,
    /// and the king among them is the player's king. Their identifiers are random UUIDs.
    pub open spec fn populated_as(self, later: PlayerView) -> bool {
        let n = self.roster.len() as int;
        &&& later.name == self.name
        &&& later.id == self.id
        &&& later.color == self.color
        &&& later.pawn_direction == self.pawn_direction
        &&& later.piece_char == self.piece_char
        &&& later.dead_pieces == self.dead_pieces
        &&& later.king == Some((n + KING_INDEX) as usize)
        &&& later.roster.len() == n + ROSTER_SIZE
        &&& later.roster.subrange(0, n) == self.roster
        &&& forall|j: int|
            n <= j < n + ROSTER_SIZE ==> is_random_uuid((#[trigger] later.roster[j]).id)
                && later.roster[j] == self.new_piece(j - n, later.roster[j].id)
        &&& later.pieces.len() == self.pieces.len() + ROSTER_SIZE
        &&& later.pieces.subrange(0, self.pieces.len() as int) == self.pieces
        &&& forall|j: int|
            self.pieces.len() <= j < self.pieces.len() + ROSTER_SIZE ==> #[trigger] later.pieces[j]
                == n + (j - self.pieces.len())
    }
}

/// Moving or placing a piece leaves the player's records in agreement.
pub proof fn lemma_relocation_keeps_wf(p: PlayerView, h: usize, to: LocationCoords)
    requires
        p.wf(),
        h < p.roster.len(),
    ensures
        p.with_move(h, to).wf(),
        p.with_placement(h, to).wf(),
{
    let moved = p.with_move(h, to);
    let placed = p.with_placement(h, to);
    assert forall|k: usize| k < moved.roster.len() implies (#[trigger] moved.pieces.contains(k)
        != #[trigger] moved.dead_pieces.contains(k)) by {
        assert(p.pieces.contains(k) != p.dead_pieces.contains(k));
    }
    assert forall|k: usize| k < placed.roster.len() implies (#[trigger] placed.pieces.contains(k)
        != #[trigger] placed.dead_pieces.contains(k)) by {
        assert(p.pieces.contains(k) != p.dead_pieces.contains(k));
    }
}

/// Capturing a piece that is in play leaves the player's records in agreement; the piece
/// is afterwards listed as captured and no longer as in play, and every other piece is listed
/// as it was.
pub proof fn lemma_capture_keeps_wf(p: PlayerView, h: usize)
    requires
        p.wf(),
        p.is_active(h),
    ensures
        p.with_capture(h).wf(),
        h < p.roster.len(),
        !p.with_capture(h).pieces.contains(h),
        p.with_capture(h).dead_pieces.contains(h),
        forall|k: usize|
            k != h ==> (#[trigger] p.with_capture(h).pieces.contains(k) == p.pieces.contains(k)),
        forall|k: usize|
            k != h ==> (#[trigger] p.with_capture(h).dead_pieces.contains(k)
                == p.dead_pieces.contains(k)),
        p.with_capture(h).pieces.len() + p.with_capture(h).dead_pieces.len() == p.pieces.len()
            + p.dead_pieces.len(),
{
    let after = p.with_capture(h);
    let at = p.pieces.index_of(h);
    assert(0 <= at < p.pieces.len() && p.pieces[at] == h);
    lemma_swap_removed(p.pieces, at);
    assert(p.pieces.contains(h) != p.dead_pieces.contains(h));
    assert(after.dead_pieces[p.dead_pieces.len() as int] == h);
    assert forall|k: usize| k != h implies (#[trigger] after.dead_pieces.contains(k)
        == p.dead_pieces.contains(k)) by {
        if p.dead_pieces.contains(k) {
            let j = choose|j: int| 0 <= j < p.dead_pieces.len() && p.dead_pieces[j] == k;
            assert(after.dead_pieces[j] == k);
        }
    }
    assert forall|k: usize| k < after.roster.len() implies (#[trigger] after.pieces.contains(k)
        != #[trigger] after.dead_pieces.contains(k)) by {
        assert(p.pieces.contains(k) != p.dead_pieces.contains(k));
    }
    assert forall|i: int| 0 <= i < after.pieces.len() implies #[trigger] after.pieces[i]
        < after.roster.len() by {
        assert(after.pieces.contains(after.pieces[i]));
        let j = choose|j: int| 0 <= j < p.pieces.len() && p.pieces[j] == after.pieces[i];
    }
}

/// The kind of the `i`-th piece that a player is given.
pub fn piece_type_at(i: usize) -> (t: PieceType)
    ensures
        t == standard_piece_type(i as int),
{
    if i < 8 {
        PieceType::Pawn
    } else if i == 8 || i == 15 {
        PieceType::Rook
    } else if i == 9 || i == 14 {
        PieceType::Knight
    } else if i == 10 || i == 13 {
        PieceType::Bishop
    } else if i == 11 {
        PieceType::Queen
    } else {
        PieceType::King
    }
}

impl Player {
    /// See [`PlayerView::wf`].
    pub open spec fn wf(&self) -> bool {
        self@.wf()
    }

    /// A player without pieces, known by `name` and by `id`.
    pub fn with_id(name: &str, color: Color, id: u128) -> (player: Player)
        ensures
            player@ == (PlayerView {
                name: name@,
                id,
                roster: Seq::empty(),
                pieces: Seq::empty(),
                dead_pieces: Seq::empty(),
                color,
                pawn_direction: color.forward() as i32,
                piece_char: color.mark(),
                king: None,
            }),
            player.wf(),
    {
        Player {
            name: name.to_string(),
            id,
            roster: Vec::new(),
            pieces: Vec::new(),
            dead_pieces: Vec::new(),
            color,
            pawn_direction: color.pawn_direction(),
            piece_char: color.piece_char(),
            king: None,
        }
    }

    /// A player without pieces, known by `name` and by a fresh random identifier.
    pub fn new(name: &str, color: Color) -> (player: Player)
        ensures
            is_random_uuid(player.id),
            player@ == (PlayerView {
                name: name@,
                id: player.id,
                roster: Seq::empty(),
                pieces: Seq::empty(),
                dead_pieces: Seq::empty(),
                color,
                pawn_direction: color.forward() as i32,
                piece_char: color.mark(),
                king: None,
            }),
            player.wf(),
    {
        Self::with_id(name, color, new_id())
    }

    /// As [`Player::new`], behind a shared pointer.
    pub fn with_rc(name: &str, color: Color) -> (player: Rc<Player>)
        ensures
            is_random_uuid(player.id),
            player@ == (PlayerView {
                name: name@,
                id: player.id,
                roster: Seq::empty(),
                pieces: Seq::empty(),
                dead_pieces: Seq::empty(),
                color,
                pawn_direction: color.forward() as i32,
                piece_char: color.mark(),
                king: None,
            }),
            player.wf(),
    {
        let player = Self::new(name, color);
        Rc::new(player)
    }

    /// Gives the player a piece of kind `piece_type` with identifier `id`: it joins the
    /// roster and the pieces in play, and stands on no cell yet.
    pub fn add_piece(&mut self, piece_type: PieceType, id: u128) -> (index: usize)
        requires
            old(self).wf(),
        ensures
            final(self).wf(),
            index == old(self).roster.len(),
            final(self)@ == (PlayerView {
                roster: old(self)@.roster.push(
                    Piece { piece_type, owner: old(self).color, id, has_moved: false, location: None },
                ),
                pieces: old(self)@.pieces.push(index),
                ..old(self)@
            }),
    {
        let index: usize = self.roster.len();
        self.roster.push(
            Piece { piece_type, owner: self.color, id, has_moved: false, location: None },
        );
        self.pieces.push(index);
        proof {
            let before = old(self)@;
            let after = self@;
            assert forall|h: usize| h < after.roster.len() implies (#[trigger] after.pieces.contains(
                h,
            ) != #[trigger] after.dead_pieces.contains(h)) by {
                if h == index {
                    assert(after.pieces[before.pieces.len() as int] == h);
                } else {
                    assert(before.pieces.contains(h) != before.dead_pieces.contains(h));
                    if before.pieces.contains(h) {
                        let i = choose|i: int| 0 <= i < before.pieces.len() && before.pieces[i] == h;
                        assert(after.pieces[i] == h);
                    }
                }
            }
        }
        index
    }

    /// Records that the piece at index `handle` of the roster has moved to `dest`.
    pub fn record_move(&mut self, handle: usize, dest: LocationCoords)
        requires
            old(self).wf(),
            handle < old(self).roster.len(),
        ensures
            final(self).wf(),
            final(self)@ == old(self)@.with_move(handle, dest),
    {
        self.roster[handle].has_moved = true;
        self.roster[handle].location = Some(dest);
        proof {
            assert(self@.roster =~= old(self)@.with_move(handle, dest).roster);
            lemma_relocation_keeps_wf(old(self)@, handle, dest);
        }
    }

    /// Records that the piece at index `handle` of the roster stands on `at`.
    pub fn place(&mut self, handle: usize, at: LocationCoords)
        requires
            old(self).wf(),
            handle < old(self).roster.len(),
        ensures
            final(self).wf(),
            final(self)@ == old(self)@.with_placement(handle, at),
    {
        self.roster[handle].location = Some(at);
        proof {
            assert(self@.roster =~= old(self)@.with_placement(handle, at).roster);
            lemma_relocation_keeps_wf(old(self)@, handle, at);
        }
    }

    /// Takes the piece at index `handle` of the roster out of play.
    pub fn capture(&mut self, handle: usize)
        requires
            old(self).wf(),
            old(self)@.is_active(handle),
        ensures
            final(self).wf(),
            final(self)@ == old(self)@.with_capture(handle),
    {
        let ghost before = self@;
        let mut found: usize = 0;
        while self.pieces[found] != handle
            invariant
                self@ == before,
                before.pieces.contains(handle),
                0 <= found < before.pieces.len(),
                forall|j: int| 0 <= j < found ==> before.pieces[j] != handle,
            decreases before.pieces.len() - found,
        {
            proof {
                let at = before.pieces.index_of(handle);
                assert(found < at < self.pieces.len());
            }
            found = found + 1;
        }
        proof {
            assert(before.pieces.index_of(handle) == found);
            lemma_capture_keeps_wf(before, handle);
        }
        self.pieces.swap_remove(found);
        self.dead_pieces.push(handle);
        self.roster[handle].location = None;
        assert(self@.roster =~= before.with_capture(handle).roster);
    }

    /// Gives the player the sixteen pieces of a side, each with a fresh random identifier.
    pub fn populate_pieces(&mut self)
        requires
            old(self).wf(),
        ensures
            final(self).wf(),
            old(self)@.populated_as(final(self)@),
    {
        let ghost before = self@;
        let ghost n = self.roster.len() as int;
        let mut i: usize = 0;
        while i < ROSTER_SIZE
            invariant
                i <= ROSTER_SIZE,
                self.wf(),
                self@.name == before.name,
                self@.id == before.id,
                self@.color == before.color,
                self@.pawn_direction == before.pawn_direction,
                self@.piece_char == before.piece_char,
                self@.dead_pieces == before.dead_pieces,
                self@.king == (if i > KING_INDEX {
                    Some((n + KING_INDEX) as usize)
                } else {
                    before.king
                }),
                n == before.roster.len(),
                self@.roster.len() == n + i,
                self@.roster.subrange(0, n) == before.roster,
                forall|j: int|
                    n <= j < n + i ==> is_random_uuid((#[trigger] self@.roster[j]).id)
                        && self@.roster[j] == before.new_piece(j - n, self@.roster[j].id),
                self@.pieces.len() == before.pieces.len() + i,
                self@.pieces.subrange(0, before.pieces.len() as int) == before.pieces,
                forall|j: int|
                    before.pieces.len() <= j < before.pieces.len() + i ==> #[trigger] self@.pieces[j]
                        == n + (j - before.pieces.len()),
            decreases ROSTER_SIZE - i,
        {
            let index: usize = self.add_piece(piece_type_at(i), new_id());
            if i == KING_INDEX {
                self.king = Some(index);
                assert(self@.roster[index as int].piece_type == PieceType::King);
            }
            i = i + 1;
        }
    }
}

} // verus!
