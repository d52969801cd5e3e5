//! The UCI protocol's logic: commands, move text, and the arguments of the
//! `position`, `go` and `setoption` commands.

use vstd::prelude::*;
use crate::movegen::{MoveList, generate_legal_moves, legal_gen_ok, legal_moves_spec};
use crate::position::{Position, PositionView, do_move_spec, do_move_ok};
use crate::position::fen::{START_FEN, fen_ok, fen_spec};
use crate::position::empty_view;
use crate::search::{Search, SearchLimits};
use crate::text::{decimal, 
    chars_eq_str, owned, parse_i32, parse_i32_spec, parse_u32, parse_u32_spec, parse_u64, parse_u64_spec,
    parse_usize, parse_usize_spec, push_all, push_str, split_whitespace, str_chars, string_from_chars, utf8_len,
    utf8_len_capped, utf8_width, ws_split,
};
use crate::tt::{cluster_count, fresh_table, tt_ok};
use crate::types::{
    File, Move, PieceType, Rank, Square, file_of, mv_from, mv_kind, mv_promo_code, mv_to, pt_of_num, rank_of,
};

verus! {

/// The text of a square: file letter and rank digit.
pub open spec fn square_text(sq: int) -> Seq<char> {
    seq![(('a' as int + file_of(sq)) as u32) as char, (('1' as int + rank_of(sq)) as u32) as char]
}

/// The letter of a promotion piece.
pub open spec fn promo_letter(pt: PieceType) -> char {
    match pt {
        PieceType::Queen => 'q',
        PieceType::Rook => 'r',
        PieceType::Bishop => 'b',
        PieceType::Knight => 'n',
        _ => 'q',
    }
}

/// The UCI text of a move: `0000` for the empty and null moves, else the
/// two squares and the promotion letter.
pub open spec fn move_text(m: Move) -> Seq<char> {
    if m.0 == 0 || m.0 == 65 {
        "0000"@
    } else if mv_kind(m) == 1 {
        square_text(mv_from(m)) + square_text(mv_to(m)) + seq![promo_letter(pt_of_num(mv_promo_code(m) + 2))]
    } else {
        square_text(mv_from(m)) + square_text(mv_to(m))
    }
}

fn file_letter(k: usize) -> (r: char)
    requires
        k < 8,
    ensures
        r == (('a' as int + k) as u32) as char,
{
    match k {
        0 => 'a',
        1 => 'b',
        2 => 'c',
        3 => 'd',
        4 => 'e',
        5 => 'f',
        6 => 'g',
        _ => 'h',
    }
}

fn rank_digit(k: usize) -> (r: char)
    requires
        k < 8,
    ensures
        r == (('1' as int + k) as u32) as char,
{
    match k {
        0 => '1',
        1 => '2',
        2 => '3',
        3 => '4',
        4 => '5',
        5 => '6',
        6 => '7',
        _ => '8',
    }
}

fn push_square(out: &mut Vec<char>, sq: Square)
    ensures
        final(out)@ == old(out)@ + square_text(sq as int),
{
    out.push(file_letter(sq.file().index()));
    out.push(rank_digit(sq.rank().index()));
}

/// The UCI text of a move.
pub fn move_to_uci(m: Move) -> (r: String)
    ensures
        r@ == move_text(m),
{
    if !m.is_ok() {
        proof {
            reveal_strlit("0000");
        }
        return owned("0000");
    }
    let mut out: Vec<char> = Vec::new();
    push_square(&mut out, m.from_sq());
    push_square(&mut out, m.to_sq());
    if m.is_promotion() {
        if let Some(promo) = m.promotion_type() {
            let promo_char = match promo {
                PieceType::Queen => 'q',
                PieceType::Rook => 'r',
                PieceType::Bishop => 'b',
                PieceType::Knight => 'n',
                _ => 'q',
            };
            out.push(promo_char);
        }
    }
    string_from_chars(&out)
}

/// The file or rank a move-text character names, counted from `base`.
pub open spec fn coord(c: char, base: char) -> int {
    c as int - base as int
}

/// The characters `s[0..4]` name two squares.
pub open spec fn squares_valid(s: Seq<char>) -> bool {
    &&& 0 <= coord(s[0], 'a') <= 7
    &&& 0 <= coord(s[1], '1') <= 7
    &&& 0 <= coord(s[2], 'a') <= 7
    &&& 0 <= coord(s[3], '1') <= 7
}

/// The promotion piece a fifth move-text character asks for.
pub open spec fn promo_of_char(c: char) -> Option<PieceType> {
    if c == 'q' {
        Some(PieceType::Queen)
    } else if c == 'r' {
        Some(PieceType::Rook)
    } else if c == 'b' {
        Some(PieceType::Bishop)
    } else if c == 'n' {
        Some(PieceType::Knight)
    } else {
        None
    }
}

/// Whether `m` goes from `from` to `to` and promotes as asked (or does not
/// promote, when nothing is asked).
pub open spec fn move_fits(m: Move, from: int, to: int, promo: Option<PieceType>) -> bool {
    &&& mv_from(m) == from
    &&& mv_to(m) == to
    &&& match promo {
        Some(pt) => mv_kind(m) == 1 && pt_of_num(mv_promo_code(m) + 2) == pt,
        None => mv_kind(m) != 1,
    }
}

/// The first of `moves[0..n]` that fits.
pub open spec fn first_fit(moves: Seq<Move>, from: int, to: int, promo: Option<PieceType>, n: int) -> Option<int>
    decreases n,
{
    if n <= 0 {
        None
    } else {
        match first_fit(moves, from, to, promo, n - 1) {
            Some(i) => Some(i),
            None => if move_fits(moves[n - 1], from, to, promo) {
                Some(n - 1)
            } else {
                None
            },
        }
    }
}

/// What reading the move text `s` in position `v` gives: the first legal
/// move with those squares and promotion, or the error message.
pub open spec fn parse_move_spec(v: PositionView, s: Seq<char>) -> Result<Move, Seq<char>> {
    if utf8_len(s) < 4 {
        Err("Move string too short"@)
    } else if !squares_valid(s) {
        Err("Invalid square"@)
    } else {
        let from = 8 * coord(s[1], '1') + coord(s[0], 'a');
        let to = 8 * coord(s[3], '1') + coord(s[2], 'a');
        let promo = if utf8_len(s) >= 5 {
            promo_of_char(s[4])
        } else {
            None
        };
        let moves = legal_moves_spec(v, Seq::empty());
        match first_fit(moves, from, to, promo, moves.len() as int) {
            Some(i) => Ok(moves[i]),
            None => Err("Move "@ + s + " not legal in current position"@),
        }
    }
}

/// Reading `s` does not fail: its first four (or five) bytes are whole
/// characters, and the legal moves can be generated.
pub open spec fn parse_move_ok(v: PositionView, s: Seq<char>) -> bool {
    &&& utf8_len(s) >= 4 ==> s.len() >= 4
    &&& utf8_len(s) >= 5 ==> s.len() >= 5
    &&& (utf8_len(s) >= 4 && squares_valid(s)) ==> legal_gen_ok(v, 0)
}

proof fn lemma_first_fit_stable(moves: Seq<Move>, from: int, to: int, promo: Option<PieceType>, i: int, n: int)
    requires
        0 <= i <= n,
        first_fit(moves, from, to, promo, i) is Some,
    ensures
        first_fit(moves, from, to, promo, n) == first_fit(moves, from, to, promo, i),
    decreases n - i,
{
    if i < n {
        lemma_first_fit_stable(moves, from, to, promo, i, n - 1);
    }
}

fn coord_of(c: char, base: char) -> (r: Option<usize>)
    ensures
        match r {
            Some(k) => 0 <= coord(c, base) <= 7 && k == coord(c, base),
            None => !(0 <= coord(c, base) <= 7),
        },
{
    let cv = c as u32;
    let bv = base as u32;
    if cv >= bv && cv - bv <= 7 {
        Some((cv - bv) as usize)
    } else {
        None
    }
}

/// Reads a move in UCI text (`e2e4`, `e7e8q`) as the legal move of the
/// position it names.
pub fn parse_uci_move(pos: &Position, move_str: &str) -> (r: Result<Move, String>)
    requires
        parse_move_ok(pos@, move_str@),
    ensures
        match r {
            Ok(m) => parse_move_spec(pos@, move_str@) == Ok::<Move, Seq<char>>(m),
            Err(e) => parse_move_spec(pos@, move_str@) == Err::<Move, Seq<char>>(e@),
        },
{
    let s = str_chars(move_str);
    let n_bytes = utf8_len_capped(&s, 5);
    if n_bytes < 4 {
        proof {
            reveal_strlit("Move string too short");
        }
        return Err(owned("Move string too short"));
    }
    let ff = coord_of(s[0], 'a');
    let fr = coord_of(s[1], '1');
    let tf = coord_of(s[2], 'a');
    let tr = coord_of(s[3], '1');
    if ff.is_none() || fr.is_none() || tf.is_none() || tr.is_none() {
        proof {
            reveal_strlit("Invalid square");
        }
        return Err(owned("Invalid square"));
    }
    let from = Square::make(File::from_index(ff.unwrap()), Rank::from_index(fr.unwrap()));
    let to = Square::make(File::from_index(tf.unwrap()), Rank::from_index(tr.unwrap()));
    let promo = if n_bytes >= 5 {
        let c = s[4];
        if c == 'q' {
            Some(PieceType::Queen)
        } else if c == 'r' {
            Some(PieceType::Rook)
        } else if c == 'b' {
            Some(PieceType::Bishop)
        } else if c == 'n' {
            Some(PieceType::Knight)
        } else {
            None
        }
    } else {
        None
    };
    let ghost fromi = 8 * coord(s@[1], '1') + coord(s@[0], 'a');
    let ghost toi = 8 * coord(s@[3], '1') + coord(s@[2], 'a');
    let mut move_list = MoveList::new();
    generate_legal_moves(pos, &mut move_list);
    let ghost moves = move_list@;
    proof {
        assert(moves =~= legal_moves_spec(pos@, Seq::empty()));
    }
    let n = move_list.len();
    let mut i: usize = 0;
    while i < n
        invariant
            i <= n,
            n == moves.len(),
            move_list@ == moves,
            from as int == fromi,
            to as int == toi,
            moves == legal_moves_spec(pos@, Seq::empty()),
            s@ == move_str@,
            utf8_len(move_str@) >= 4,
            squares_valid(move_str@),
            fromi == 8 * coord(move_str@[1], '1') + coord(move_str@[0], 'a'),
            toi == 8 * coord(move_str@[3], '1') + coord(move_str@[2], 'a'),
            promo == (if utf8_len(move_str@) >= 5 { promo_of_char(move_str@[4]) } else { None }),
            first_fit(moves, fromi, toi, promo, i as int) is None,
        decreases n - i,
    {
        let m = move_list.get(i);
        if m.from_sq() == from && m.to_sq() == to {
            let fits = match promo {
                Some(pt) => m.is_promotion() && m.promotion_type() == Some(pt),
                None => !m.is_promotion(),
            };
            if fits {
                proof {
                    assert(first_fit(moves, fromi, toi, promo, i as int + 1) == Some(i as int));
                    lemma_first_fit_stable(moves, fromi, toi, promo, i as int + 1, n as int);
                }
                return Ok(m);
            }
        }
        proof {
            assert(!move_fits(moves[i as int], fromi, toi, promo));
        }
        i = i + 1;
    }
    let mut msg: Vec<char> = Vec::new();
    push_str(&mut msg, "Move ");
    push_all(&mut msg, &s);
    push_str(&mut msg, " not legal in current position");
    Err(string_from_chars(&msg))
}

/// The words of a list of string slices, as characters.
pub open spec fn word_seq(args: Seq<&str>) -> Seq<Seq<char>> {
    Seq::new(args.len(), |i: int| args[i]@)
}

/// The words of a command line, separated by white space.
pub fn words(line: &str) -> (r: Vec<String>)
    ensures
        r@.len() == ws_split(line@).len(),
        forall|j: int| 0 <= j < r@.len() ==> #[trigger] r@[j]@ == ws_split(line@)[j],
{
    let cs = str_chars(line);
    let parts = split_whitespace(&cs);
    let mut out: Vec<String> = Vec::new();
    let mut i: usize = 0;
    while i < parts.len()
        invariant
            i <= parts@.len(),
            cs@ == line@,
            parts@.len() == ws_split(line@).len(),
            forall|j: int| 0 <= j < parts@.len() ==> #[trigger] parts@[j]@ == ws_split(line@)[j],
            out@.len() == i,
            forall|j: int| 0 <= j < i ==> #[trigger] out@[j]@ == ws_split(line@)[j],
        decreases parts@.len() - i,
    {
        out.push(string_from_chars(&parts[i]));
        i = i + 1;
    }
    out
}

/// The commands of the protocol.
#[derive(Debug, Copy, Clone, PartialEq, Eq, Structural)]
pub enum Command {
    Uci,
    IsReady,
    UciNewGame,
    Position,
    Go,
    Quit,
    Stop,
    Perft,
    PerftTest,
    Display,
    SetOption,
    Unknown,
}

/// The command a first word names.
pub open spec fn command_spec(w: Seq<char>) -> Command {
    if w == "uci"@ {
        Command::Uci
    } else if w == "isready"@ {
        Command::IsReady
    } else if w == "ucinewgame"@ {
        Command::UciNewGame
    } else if w == "position"@ {
        Command::Position
    } else if w == "go"@ {
        Command::Go
    } else if w == "quit"@ {
        Command::Quit
    } else if w == "stop"@ {
        Command::Stop
    } else if w == "perft"@ {
        Command::Perft
    } else if w == "perfttest"@ {
        Command::PerftTest
    } else if w == "d"@ || w == "display"@ {
        Command::Display
    } else if w == "setoption"@ {
        Command::SetOption
    } else {
        Command::Unknown
    }
}

/// The command named by the first word of a line.
pub fn command_of(word: &str) -> (r: Command)
    ensures
        r == command_spec(word@),
{
    let w = str_chars(word);
    if chars_eq_str(&w, "uci") {
        Command::Uci
    } else if chars_eq_str(&w, "isready") {
        Command::IsReady
    } else if chars_eq_str(&w, "ucinewgame") {
        Command::UciNewGame
    } else if chars_eq_str(&w, "position") {
        Command::Position
    } else if chars_eq_str(&w, "go") {
        Command::Go
    } else if chars_eq_str(&w, "quit") {
        Command::Quit
    } else if chars_eq_str(&w, "stop") {
        Command::Stop
    } else if chars_eq_str(&w, "perft") {
        Command::Perft
    } else if chars_eq_str(&w, "perfttest") {
        Command::PerftTest
    } else if chars_eq_str(&w, "d") || chars_eq_str(&w, "display") {
        Command::Display
    } else if chars_eq_str(&w, "setoption") {
        Command::SetOption
    } else {
        Command::Unknown
    }
}

/// The words `ws[lo..hi]` joined by single spaces.
pub open spec fn join_words(ws: Seq<Seq<char>>, lo: int, hi: int) -> Seq<char>
    decreases hi - lo,
{
    if hi <= lo {
        Seq::empty()
    } else if hi == lo + 1 {
        ws[lo]
    } else {
        join_words(ws, lo, hi - 1) + " "@ + ws[hi - 1]
    }
}

/// Joins `args[lo..hi]` with single spaces.
fn join_args(args: &[&str], lo: usize, hi: usize) -> (r: Vec<char>)
    requires
        lo <= hi <= args@.len(),
    ensures
        r@ == join_words(word_seq(args@), lo as int, hi as int),
{
    let mut out: Vec<char> = Vec::new();
    let mut i: usize = lo;
    proof {
        reveal_strlit(" ");
    }
    while i < hi
        invariant
            lo <= i <= hi,
            hi <= args@.len(),
            out@ == join_words(word_seq(args@), lo as int, i as int),
        decreases hi - i,
    {
        let ghost before = out@;
        if i > lo {
            out.push(' ');
        }
        let w = str_chars(args[i]);
        push_all(&mut out, &w);
        proof {
            reveal_strlit(" ");
            assert(word_seq(args@)[i as int] == args@[i as int]@);
            assert(before == join_words(word_seq(args@), lo as int, i as int));
            if i > lo {
                assert(out@ =~= join_words(word_seq(args@), lo as int, i as int) + " "@ + word_seq(args@)[i as int]);
            } else {
                assert(out@ =~= word_seq(args@)[i as int]);
            }
        }
        i = i + 1;
    }
    out
}

/// The first word at index `i` or later that is `moves`, or the end.
pub open spec fn moves_keyword_from(ws: Seq<Seq<char>>, i: int) -> int
    decreases ws.len() - i,
{
    if i >= ws.len() {
        ws.len() as int
    } else if ws[i] == "moves"@ {
        i
    } else {
        moves_keyword_from(ws, i + 1)
    }
}

/// Where the moves of a `position` command start when the position ends
/// at `idx`: after a `moves` word there, else nowhere (the end).
pub open spec fn moves_from(ws: Seq<Seq<char>>, idx: int) -> int {
    if idx < ws.len() && ws[idx] == "moves"@ {
        idx + 1
    } else {
        ws.len() as int
    }
}

/// Where a `position` command takes its position from.
pub enum PositionStart {
    StartPos,
    Fen(String),
}

/// A `position` command: the start, and where its moves begin in the
/// arguments (their length when there are none).
pub struct PositionRequest {
    pub start: PositionStart,
    pub moves_at: usize,
}

/// What the arguments of a `position` command ask for: nothing (`None`), the
/// start position, or a FEN string (the words up to `moves`, joined).
pub open spec fn position_request_spec(ws: Seq<Seq<char>>) -> Option<(Option<Seq<char>>, int)> {
    if ws.len() == 0 {
        None
    } else if ws[0] == "startpos"@ {
        Some((None, moves_from(ws, 1)))
    } else if ws[0] == "fen"@ {
        let end = moves_keyword_from(ws, 1);
        Some((Some(join_words(ws, 1, end)), moves_from(ws, end)))
    } else {
        None
    }
}

/// Reads the arguments of a `position` command.
pub fn position_request(args: &[&str]) -> (r: Option<PositionRequest>)
    ensures
        match r {
            None => position_request_spec(word_seq(args@)) is None,
            Some(req) => match req.start {
                PositionStart::StartPos => position_request_spec(word_seq(args@)) == Some(
                    (None::<Seq<char>>, req.moves_at as int),
                ),
                PositionStart::Fen(f) => position_request_spec(word_seq(args@)) == Some(
                    (Some(f@), req.moves_at as int),
                ),
            },
        },
{
    let ghost ws = word_seq(args@);
    let n = args.len();
    if n == 0 {
        return None;
    }
    let first = str_chars(args[0]);
    proof {
        assert(ws[0] == first@);
    }
    let (start, idx) = if chars_eq_str(&first, "startpos") {
        (PositionStart::StartPos, 1usize)
    } else if chars_eq_str(&first, "fen") {
        let mut end: usize = n;
        let mut i: usize = 1;
        let mut found = false;
        while i < n && !found
            invariant
                1 <= i <= n,
                1 <= end <= n,
                n == args@.len(),
                ws == word_seq(args@),
                found ==> end < n && ws[end as int] == "moves"@ && moves_keyword_from(ws, 1) == end,
                !found ==> moves_keyword_from(ws, 1) == moves_keyword_from(ws, i as int) && end == n,
            decreases n - i + (if found { 0int } else { 1int }),
        {
            let w = str_chars(args[i]);
            proof {
                assert(ws[i as int] == w@);
            }
            if chars_eq_str(&w, "moves") {
                end = i;
                found = true;
            } else {
                i = i + 1;
            }
        }
        let fen = join_args(args, 1, end);
        (PositionStart::Fen(string_from_chars(&fen)), end)
    } else {
        return None;
    };
    let moves_at = if idx < n && chars_eq_str(&str_chars(args[idx]), "moves") {
        idx + 1
    } else {
        n
    };
    Some(PositionRequest { start, moves_at })
}

/// Playing the move texts `ws[i..]` from `v`, stopping at the first that
/// does not read: the position reached, and the index and message of that
/// move if there is one.
pub open spec fn apply_spec(v: PositionView, ws: Seq<Seq<char>>, i: int) -> (PositionView, Option<(int, Seq<char>)>)
    decreases ws.len() - i,
{
    if i < 0 || i >= ws.len() {
        (v, None)
    } else {
        match parse_move_spec(v, ws[i]) {
            Ok(m) => apply_spec(do_move_spec(v, m), ws, i + 1),
            Err(e) => (v, Some((i, e))),
        }
    }
}

/// Playing the move texts `ws[i..]` from `v` does not fail.
pub open spec fn apply_ok(v: PositionView, ws: Seq<Seq<char>>, i: int) -> bool
    decreases ws.len() - i,
{
    if i < 0 || i >= ws.len() {
        true
    } else {
        &&& parse_move_ok(v, ws[i])
        &&& match parse_move_spec(v, ws[i]) {
            Ok(m) => do_move_ok(v, m) && apply_ok(do_move_spec(v, m), ws, i + 1),
            Err(_) => true,
        }
    }
}

/// Plays the moves given in UCI text, in order; at the first one that does
/// not read, stops and gives its index and the message.
pub fn apply_uci_moves(pos: &mut Position, moves: &[&str]) -> (r: Option<(usize, String)>)
    requires
        apply_ok(old(pos)@, word_seq(moves@), 0),
    ensures
        final(pos)@ == apply_spec(old(pos)@, word_seq(moves@), 0).0,
        match r {
            None => apply_spec(old(pos)@, word_seq(moves@), 0).1 is None,
            Some((i, e)) => apply_spec(old(pos)@, word_seq(moves@), 0).1 == Some((i as int, e@)),
        },
{
    let ghost ws = word_seq(moves@);
    let ghost v0 = pos@;
    let mut i: usize = 0;
    while i < moves.len()
        invariant
            i <= moves@.len(),
            ws == word_seq(moves@),
            apply_spec(v0, ws, 0) == apply_spec(pos@, ws, i as int),
            apply_ok(pos@, ws, i as int),
            v0 == old(pos)@,
        decreases moves@.len() - i,
    {
        let move_str = moves[i];
        proof {
            assert(ws[i as int] == move_str@);
        }
        match parse_uci_move(pos, move_str) {
            Ok(m) => {
                pos.do_move(m);
            },
            Err(e) => {
                return Some((i, e));
            },
        }
        i = i + 1;
    }
    None
}

/// What the arguments of a `go` command set: depth, nodes, time in
/// milliseconds, and whether the search is infinite.
pub struct GoLimits {
    pub depth: Option<i32>,
    pub nodes: Option<u64>,
    pub movetime_ms: Option<u64>,
    pub infinite: bool,
}

/// The limits of a `go` command without arguments: depth 6.
pub open spec fn default_go() -> GoLimits {
    GoLimits { depth: Some(6), nodes: None, movetime_ms: None, infinite: false }
}

/// Reading the arguments `ws[i..]` of a `go` command into `acc`: the limits,
/// or `Err(d)` when a `perft d` comes first.
pub open spec fn go_spec(ws: Seq<Seq<char>>, i: int, acc: GoLimits) -> Result<GoLimits, u32>
    decreases ws.len() - i,
{
    if i < 0 || i >= ws.len() {
        Ok(acc)
    } else if ws[i] == "depth"@ {
        if i + 1 < ws.len() {
            let next = match parse_i32_spec(ws[i + 1]) {
                Some(d) => GoLimits { depth: Some(d), ..acc },
                None => acc,
            };
            go_spec(ws, i + 2, next)
        } else {
            go_spec(ws, i + 1, acc)
        }
    } else if ws[i] == "nodes"@ {
        if i + 1 < ws.len() {
            let next = match parse_u64_spec(ws[i + 1]) {
                Some(n) => GoLimits { nodes: Some(n), ..acc },
                None => acc,
            };
            go_spec(ws, i + 2, next)
        } else {
            go_spec(ws, i + 1, acc)
        }
    } else if ws[i] == "movetime"@ {
        if i + 1 < ws.len() {
            let next = match parse_u64_spec(ws[i + 1]) {
                Some(ms) => GoLimits { movetime_ms: Some(ms), ..acc },
                None => acc,
            };
            go_spec(ws, i + 2, next)
        } else {
            go_spec(ws, i + 1, acc)
        }
    } else if ws[i] == "infinite"@ {
        go_spec(ws, i + 1, GoLimits { infinite: true, ..acc })
    } else if ws[i] == "perft"@ {
        if i + 1 < ws.len() {
            match parse_u32_spec(ws[i + 1]) {
                Some(d) => Err(d),
                None => go_spec(ws, i + 2, acc),
            }
        } else {
            go_spec(ws, i + 1, acc)
        }
    } else {
        go_spec(ws, i + 1, acc)
    }
}

/// What a `go` command asks for: a perft count or a search.
pub enum GoCommand {
    Perft(u32),
    Search(SearchLimits),
}

/// The search limits are the limits read.
pub open spec fn limits_match(l: SearchLimits, g: GoLimits) -> bool {
    &&& l.depth == g.depth
    &&& l.nodes == g.nodes
    &&& l.movetime == g.movetime_ms
    &&& l.infinite == g.infinite
}

/// Reads the arguments of a `go` command.
pub fn parse_go(args: &[&str]) -> (r: GoCommand)
    ensures
        match r {
            GoCommand::Perft(d) => go_spec(word_seq(args@), 0, default_go()) == Err::<GoLimits, u32>(d),
            GoCommand::Search(l) => go_spec(word_seq(args@), 0, default_go()) matches Ok(g) && limits_match(l, g),
        },
{
    let ghost ws = word_seq(args@);
    let mut limits = SearchLimits::default();
    let ghost mut acc = default_go();
    let n = args.len();
    let mut i: usize = 0;
    while i < n
        invariant
            i <= n + 1,
            n == args@.len(),
            ws == word_seq(args@),
            go_spec(ws, 0, default_go()) == go_spec(ws, i as int, acc),
            limits_match(limits, acc),
        decreases n + 1 - i,
    {
        let w = str_chars(args[i]);
        proof {
            assert(ws[i as int] == w@);
        }
        if chars_eq_str(&w, "depth") {
            if i + 1 < n {
                let a = str_chars(args[i + 1]);
                proof {
                    assert(ws[i + 1] == a@);
                }
                if let Some(d) = parse_i32(&a) {
                    limits.depth = Some(d);
                    proof {
                        acc = GoLimits { depth: Some(d), ..acc };
                    }
                }
                i = i + 2;
            } else {
                i = i + 1;
            }
        } else if chars_eq_str(&w, "nodes") {
            if i + 1 < n {
                let a = str_chars(args[i + 1]);
                proof {
                    assert(ws[i + 1] == a@);
                }
                if let Some(x) = parse_u64(&a) {
                    limits.nodes = Some(x);
                    proof {
                        acc = GoLimits { nodes: Some(x), ..acc };
                    }
                }
                i = i + 2;
            } else {
                i = i + 1;
            }
        } else if chars_eq_str(&w, "movetime") {
            if i + 1 < n {
                let a = str_chars(args[i + 1]);
                proof {
                    assert(ws[i + 1] == a@);
                }
                if let Some(ms) = parse_u64(&a) {
                    limits.movetime = Some(ms);
                    proof {
                        acc = GoLimits { movetime_ms: Some(ms), ..acc };
                    }
                }
                i = i + 2;
            } else {
                i = i + 1;
            }
        } else if chars_eq_str(&w, "infinite") {
            limits.infinite = true;
            proof {
                acc = GoLimits { infinite: true, ..acc };
            }
            i = i + 1;
        } else if chars_eq_str(&w, "perft") {
            if i + 1 < n {
                let a = str_chars(args[i + 1]);
                proof {
                    assert(ws[i + 1] == a@);
                }
                if let Some(d) = parse_u32(&a) {
                    return GoCommand::Perft(d);
                }
                i = i + 2;
            } else {
                i = i + 1;
            }
        } else {
            i = i + 1;
        }
    }
    GoCommand::Search(limits)
}

/// What `str::to_lowercase` gives for `s`.
pub uninterp spec fn lowercase(s: Seq<char>) -> Seq<char>;

/// `str::to_lowercase`: the lowercase form of `s` by Unicode's rules. The
/// result is only named (`lowercase`), not stated.
#[verifier::external_body]
fn to_lowercase(s: &str) -> (r: String)
    ensures
        r@ == lowercase(s@),
{
    s.to_lowercase()
}

/// Where the name and the value of a `setoption` command start: after the
/// last `name` before the first `value`, and after that `value`.
pub open spec fn option_positions(ws: Seq<Seq<char>>, i: int, ns: Option<int>) -> (Option<int>, Option<int>)
    decreases ws.len() - i,
{
    if i < 0 || i >= ws.len() {
        (ns, None)
    } else if ws[i] == "name"@ {
        option_positions(ws, i + 1, Some(i + 1))
    } else if ws[i] == "value"@ {
        (ns, Some(i + 1))
    } else {
        option_positions(ws, i + 1, ns)
    }
}

/// The hash size a `setoption` command sets: when it has a name and a
/// value, the name lowercases to `hash`, and the value reads as a `usize`.
pub open spec fn hash_option_spec(ws: Seq<Seq<char>>) -> Option<usize> {
    let p = option_positions(ws, 0, None);
    match (p.0, p.1) {
        (Some(n), Some(v)) => if lowercase(join_words(ws, n, v - 1)) == "hash"@ {
            parse_usize_spec(join_words(ws, v, ws.len() as int))
        } else {
            None
        },
        _ => None,
    }
}

/// Reads a `setoption` command: the hash size in megabytes it sets, if any.
pub fn setoption_hash(args: &[&str]) -> (r: Option<usize>)
    ensures
        r == hash_option_spec(word_seq(args@)),
{
    let ghost ws = word_seq(args@);
    let n = args.len();
    let mut name_start: Option<usize> = None;
    let mut value_start: Option<usize> = None;
    let mut i: usize = 0;
    while i < n && value_start.is_none()
        invariant
            i <= n,
            n == args@.len(),
            ws == word_seq(args@),
            value_start is None ==> option_positions(ws, 0, None) == option_positions(
                ws,
                i as int,
                match name_start {
                    Some(k) => Some(k as int),
                    None => None,
                },
            ),
            value_start is Some ==> option_positions(ws, 0, None) == (
                match name_start {
                    Some(k) => Some(k as int),
                    None => None,
                },
                Some(value_start->Some_0 as int),
            ),
            value_start is Some ==> 1 <= value_start->Some_0 <= n,
            name_start is Some ==> name_start->Some_0 <= i,
            name_start is Some && value_start is Some ==> name_start->Some_0 < value_start->Some_0,
        decreases n - i + (if value_start is Some { 0int } else { 1int }),
    {
        let w = str_chars(args[i]);
        proof {
            assert(ws[i as int] == w@);
        }
        if chars_eq_str(&w, "name") {
            name_start = Some(i + 1);
            i = i + 1;
        } else if chars_eq_str(&w, "value") {
            value_start = Some(i + 1);
        } else {
            i = i + 1;
        }
    }
    match (name_start, value_start) {
        (Some(ns), Some(vs)) => {
            let name = string_from_chars(&join_args(args, ns, vs - 1));
            let lower = to_lowercase(name.as_str());
            let value = join_args(args, vs, n);
            hash_option_value(lower.as_str(), &value)
        },
        _ => None,
    }
}

/// The hash size set by an option whose lowercased name is `lower_name` and
/// whose value text is `value`: the value read as a `usize` when the name is
/// `hash`, else nothing.
pub fn hash_option_value(lower_name: &str, value: &Vec<char>) -> (r: Option<usize>)
    ensures
        r == (if lower_name@ == "hash"@ { parse_usize_spec(value@) } else { None }),
{
    let lower_chars = str_chars(lower_name);
    if chars_eq_str(&lower_chars, "hash") {
        parse_usize(value)
    } else {
        None
    }
}

/// The engine's state between commands: its search and the current position.
pub struct UCI {
    pub search: Search,
    pub position: Position,
}

impl UCI {
    /// A 16 MB table and the starting position.
    pub fn new() -> (r: UCI)
        ensures
            r.search.tt@ == fresh_table(cluster_count(16)),
            fen_ok(START_FEN@) ==> match fen_spec(START_FEN@) {
                Ok(v) => r.position@ == v,
                Err(_) => r.position@ == empty_view(),
            },
            !fen_ok(START_FEN@) ==> r.position@ == empty_view(),
    {
        UCI { search: Search::new(16), position: Position::startpos() }
    }

    /// A new game: the table is emptied and the starting position set.
    pub fn ucinewgame(&mut self)
        requires
            tt_ok(old(self).search.tt@),
        ensures
            final(self).search.tt@ == fresh_table(old(self).search.tt@.clusters.len() as int),
            fen_ok(START_FEN@) ==> match fen_spec(START_FEN@) {
                Ok(v) => final(self).position@ == v,
                Err(_) => final(self).position@ == empty_view(),
            },
            !fen_ok(START_FEN@) ==> final(self).position@ == empty_view(),
    {
        self.search.tt.clear();
        self.position = Position::startpos();
    }
}

proof fn lemma_first_fit_found(moves: Seq<Move>, from: int, to: int, promo: Option<PieceType>, i: int, n: int)
    requires
        0 <= i < n <= moves.len(),
        move_fits(moves[i], from, to, promo),
    ensures
        first_fit(moves, from, to, promo, n) matches Some(j) && 0 <= j <= i && move_fits(moves[j], from, to, promo),
    decreases n,
{
    if n - 1 > i {
        lemma_first_fit_found(moves, from, to, promo, i, n - 1);
    } else {
        match first_fit(moves, from, to, promo, n - 1) {
            Some(j) => {
                lemma_first_fit_char(moves, from, to, promo, n - 1);
            },
            None => {},
        }
    }
}

proof fn lemma_first_fit_char(moves: Seq<Move>, from: int, to: int, promo: Option<PieceType>, n: int)
    requires
        0 <= n <= moves.len(),
    ensures
        first_fit(moves, from, to, promo, n) matches Some(j) ==> 0 <= j < n && move_fits(moves[j], from, to, promo),
    decreases n,
{
    if n > 0 {
        lemma_first_fit_char(moves, from, to, promo, n - 1);
    }
}

/// The promotion a move asks for, as its text names it.
pub open spec fn move_promo(m: Move) -> Option<PieceType> {
    if mv_kind(m) == 1 {
        Some(pt_of_num(mv_promo_code(m) + 2))
    } else {
        None
    }
}

/// The text of a move names its squares and its promotion.
proof fn lemma_move_text_fields(m: Move)
    requires
        m.0 != 0,
        m.0 != 65,
    ensures
        utf8_len(move_text(m)) >= 4,
        squares_valid(move_text(m)),
        8 * coord(move_text(m)[1], '1') + coord(move_text(m)[0], 'a') == mv_from(m),
        8 * coord(move_text(m)[3], '1') + coord(move_text(m)[2], 'a') == mv_to(m),
        (if utf8_len(move_text(m)) >= 5 { promo_of_char(move_text(m)[4]) } else { None }) == move_promo(m),
{
    crate::types::lemma_move_kind(m);
    let from = mv_from(m);
    let to = mv_to(m);
    let t = move_text(m);
    assert(t.take(1) =~= seq![t[0]]);
    assert(t.take(1).drop_last() =~= Seq::<char>::empty());
    assert(0 <= file_of(from) < 8 && 0 <= rank_of(from) < 8);
    assert(0 <= file_of(to) < 8 && 0 <= rank_of(to) < 8);
    assert(t[0] as u32 == 'a' as u32 + file_of(from));
    assert(t[1] as u32 == '1' as u32 + rank_of(from));
    assert(t[2] as u32 == 'a' as u32 + file_of(to));
    assert(t[3] as u32 == '1' as u32 + rank_of(to));
    assert(t.take(2).drop_last() =~= t.take(1));
    assert(t.take(3).drop_last() =~= t.take(2));
    assert(t.take(4).drop_last() =~= t.take(3));
    assert(utf8_len(Seq::<char>::empty()) == 0);
    assert(t.take(1).last() == t[0]);
    assert(utf8_width(t[0]) == 1);
    assert(utf8_width(t[1]) == 1);
    assert(utf8_width(t[2]) == 1);
    assert(utf8_width(t[3]) == 1);
    assert(utf8_len(t.take(1)) == 1);
    assert(t.take(2).last() == t[1]);
    assert(t.take(3).last() == t[2]);
    assert(t.take(4).last() == t[3]);
    assert(utf8_len(t.take(2)) == 2);
    assert(utf8_len(t.take(3)) == 3);
    assert(utf8_len(t.take(4)) == 4);
    if mv_kind(m) == 1 {
        assert(t.take(5).drop_last() =~= t.take(4));
        assert(t.take(5).last() == t[4]);
        assert(utf8_width(t[4]) == 1);
        assert(t.take(5) =~= t);
        assert(utf8_len(t) == 5);
    } else {
        assert(t.take(4) =~= t);
        assert(utf8_len(t) == 4);
    }
}

/// Reading back the text of a legal move of `v` gives a legal move with the
/// same squares and the same promotion (the first such move generated).
pub proof fn lemma_move_text_reads_back(v: PositionView, i: int)
    requires
        0 <= i < legal_moves_spec(v, Seq::empty()).len(),
        legal_moves_spec(v, Seq::empty())[i].0 != 0,
        legal_moves_spec(v, Seq::empty())[i].0 != 65,
    ensures
        ({
            let m = legal_moves_spec(v, Seq::empty())[i];
            parse_move_spec(v, move_text(m)) matches Ok(r) && move_fits(r, mv_from(m), mv_to(m), move_promo(m))
        }),
{
    let moves = legal_moves_spec(v, Seq::empty());
    let m = moves[i];
    lemma_move_text_fields(m);
    crate::types::lemma_move_kind(m);
    assert(move_fits(m, mv_from(m), mv_to(m), move_promo(m)));
    lemma_first_fit_found(moves, mv_from(m), mv_to(m), move_promo(m), i, moves.len() as int);
}

/// Reading a `go` command with one limit: `depth n`, `nodes n`, `movetime n`
/// set that limit to `n` (the rest stay as without arguments), `perft n` asks
/// for a perft count to depth `n`, and `infinite` sets an infinite search.
pub proof fn lemma_go_single_limit(n: nat)
    ensures
        n <= i32::MAX ==> go_spec(seq!["depth"@, decimal(n)], 0, default_go()) == Ok::<GoLimits, u32>(
            GoLimits { depth: Some(n as i32), ..default_go() },
        ),
        n <= u64::MAX ==> go_spec(seq!["nodes"@, decimal(n)], 0, default_go()) == Ok::<GoLimits, u32>(
            GoLimits { nodes: Some(n as u64), ..default_go() },
        ),
        n <= u64::MAX ==> go_spec(seq!["movetime"@, decimal(n)], 0, default_go()) == Ok::<GoLimits, u32>(
            GoLimits { movetime_ms: Some(n as u64), ..default_go() },
        ),
        n <= u32::MAX ==> go_spec(seq!["perft"@, decimal(n)], 0, default_go()) == Err::<GoLimits, u32>(n as u32),
        go_spec(seq!["infinite"@], 0, default_go()) == Ok::<GoLimits, u32>(GoLimits { infinite: true, ..default_go() }),
{
    reveal_strlit("depth");
    reveal_strlit("nodes");
    reveal_strlit("movetime");
    reveal_strlit("perft");
    reveal_strlit("infinite");
    crate::text::lemma_parse_decimal(n);
    let ds = seq!["depth"@, decimal(n)];
    let ns = seq!["nodes"@, decimal(n)];
    let ms = seq!["movetime"@, decimal(n)];
    let ps = seq!["perft"@, decimal(n)];
    let is = seq!["infinite"@];
    assert("nodes"@ != "depth"@) by {
        assert("nodes"@[0] != "depth"@[0]);
    }
    assert("movetime"@ != "depth"@ && "movetime"@ != "nodes"@) by {
        assert("movetime"@.len() != "depth"@.len());
        assert("movetime"@[0] != "nodes"@[0]);
    }
    assert("perft"@ != "depth"@ && "perft"@ != "nodes"@ && "perft"@ != "movetime"@ && "perft"@ != "infinite"@) by {
        assert("perft"@[0] != "depth"@[0]);
        assert("perft"@[0] != "nodes"@[0]);
        assert("perft"@[0] != "movetime"@[0]);
        assert("perft"@[0] != "infinite"@[0]);
    }
    assert("infinite"@ != "depth"@ && "infinite"@ != "nodes"@ && "infinite"@ != "movetime"@) by {
        assert("infinite"@[0] != "depth"@[0]);
        assert("infinite"@[0] != "nodes"@[0]);
        assert("infinite"@[0] != "movetime"@[0]);
    }
    assert(go_spec(ds, 2, GoLimits { depth: Some(n as i32), ..default_go() }) == Ok::<GoLimits, u32>(
        GoLimits { depth: Some(n as i32), ..default_go() },
    ));
    assert(go_spec(ns, 2, GoLimits { nodes: Some(n as u64), ..default_go() }) == Ok::<GoLimits, u32>(
        GoLimits { nodes: Some(n as u64), ..default_go() },
    ));
    assert(go_spec(ms, 2, GoLimits { movetime_ms: Some(n as u64), ..default_go() }) == Ok::<GoLimits, u32>(
        GoLimits { movetime_ms: Some(n as u64), ..default_go() },
    ));
    assert(go_spec(is, 1, GoLimits { infinite: true, ..default_go() }) == Ok::<GoLimits, u32>(
        GoLimits { infinite: true, ..default_go() },
    ));
}

} // verus!
