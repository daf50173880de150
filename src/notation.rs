//! The text of a move: the characters that carry no information, and the
//! pieces of algebraic notation (castling tokens, piece letters, promotion
//! letters, files and ranks).
use crate::pieces::Id;
use vstd::prelude::*;

verus! {

/// Characters that carry no information in a move: capture marks, promotion
/// punctuation, check and mate marks.
pub open spec fn is_mark(c: char) -> bool {
    c == 'x' || c == ':' || c == '=' || c == '(' || c == ')' || c == '/' || c == '+' || c == '#'
}

/// Unicode white space, as trimmed from the ends of a move.
pub open spec fn is_space(c: char) -> bool {
    ('\u{9}' <= c <= '\u{d}') || c == ' ' || c == '\u{85}' || c == '\u{a0}' || c == '\u{1680}' || (
    '\u{2000}' <= c <= '\u{200a}') || c == '\u{2028}' || c == '\u{2029}' || c == '\u{202f}' || c
        == '\u{205f}' || c == '\u{3000}'
}

/// `s` without the marks.
pub open spec fn strip_marks(s: Seq<char>) -> Seq<char>
    decreases s.len(),
{
    if s.len() == 0 {
        s
    } else {
        strip_marks(s.drop_last()) + if is_mark(s.last()) {
            Seq::<char>::empty()
        } else {
            seq![s.last()]
        }
    }
}

/// The text `e.p.` that may follow an en passant capture.
pub open spec fn ep_suffix() -> Seq<char> {
    seq!['e', '.', 'p', '.']
}

/// `s` from index `i` on, with each `e.p.` removed, left to right.
pub open spec fn remove_ep_from(s: Seq<char>, i: int) -> Seq<char>
    decreases s.len() - i,
{
    if i < 0 || i >= s.len() {
        Seq::<char>::empty()
    } else if i + 4 <= s.len() && s.subrange(i, i + 4) == ep_suffix() {
        remove_ep_from(s, i + 4)
    } else {
        seq![s[i]] + remove_ep_from(s, i + 1)
    }
}

/// The letter O for a zero, as zeros may stand for it in castling.
pub open spec fn o_for_zero(c: char) -> char {
    if c == '0' {
        'O'
    } else {
        c
    }
}

pub open spec fn trim_start(s: Seq<char>) -> Seq<char>
    decreases s.len(),
{
    if s.len() > 0 && is_space(s[0]) {
        trim_start(s.drop_first())
    } else {
        s
    }
}

pub open spec fn trim_end(s: Seq<char>) -> Seq<char>
    decreases s.len(),
{
    if s.len() > 0 && is_space(s.last()) {
        trim_end(s.drop_last())
    } else {
        s
    }
}

/// A move as typed, reduced to the characters that matter.
pub open spec fn sanitised(s: Seq<char>) -> Seq<char> {
    trim_end(trim_start(remove_ep_from(strip_marks(s), 0).map_values(|c: char| o_for_zero(c))))
}

/// The side that a castling token names: `O-O` the king's, `O-O-O` the queen's.
pub open spec fn castle_side(s: Seq<char>) -> Option<bool> {
    if s == seq!['O', '-', 'O'] {
        Some(true)
    } else if s == seq!['O', '-', 'O', '-', 'O'] {
        Some(false)
    } else {
        None
    }
}

/// The icon that a trailing promotion letter stands for.
pub open spec fn promotion_icon(c: char) -> Option<char> {
    if c == 'B' {
        Some('♗')
    } else if c == 'N' {
        Some('♘')
    } else if c == 'Q' {
        Some('♕')
    } else if c == 'R' {
        Some('♖')
    } else {
        None
    }
}

/// The promotion that a move asks for, from its last letter.
pub open spec fn promotion_of(s: Seq<char>) -> Option<char> {
    if s.len() > 0 {
        promotion_icon(s.last())
    } else {
        None
    }
}

/// The kind that a leading piece letter names.
pub open spec fn letter_id(c: char) -> Option<Id> {
    if c == 'B' {
        Some(Id::Bishop)
    } else if c == 'N' {
        Some(Id::Knight)
    } else if c == 'K' {
        Some(Id::King)
    } else if c == 'Q' {
        Some(Id::Queen)
    } else if c == 'R' {
        Some(Id::Rook)
    } else {
        None
    }
}

/// The kind of piece that a move names; pawns have no letter.
pub open spec fn id_of_move(s: Seq<char>) -> Id {
    if s.len() > 0 && letter_id(s[0]) is Some {
        letter_id(s[0])->Some_0
    } else {
        Id::Pawn
    }
}

/// A move without its promotion letter.
pub open spec fn move_core(s: Seq<char>) -> Seq<char> {
    if promotion_of(s) is Some {
        s.drop_last()
    } else {
        s
    }
}

pub open spec fn file_char(c: char) -> bool {
    'a' <= c <= 'h'
}

pub open spec fn rank_char(c: char) -> bool {
    '1' <= c <= '8'
}


/// Reducing a move to the characters that matter never lengthens it.
pub proof fn lemma_sanitised_len(s: Seq<char>)
    ensures
        sanitised(s).len() <= s.len(),
{
    lemma_strip_marks_len(s);
    let a = strip_marks(s);
    lemma_remove_ep_len(a, 0);
    let b = remove_ep_from(a, 0).map_values(|c: char| o_for_zero(c));
    lemma_trim_start_len(b);
    lemma_trim_end_len(trim_start(b));
}

proof fn lemma_strip_marks_len(s: Seq<char>)
    ensures
        strip_marks(s).len() <= s.len(),
    decreases s.len(),
{
    if s.len() > 0 {
        lemma_strip_marks_len(s.drop_last());
    }
}

proof fn lemma_remove_ep_len(s: Seq<char>, i: int)
    requires
        0 <= i,
    ensures
        remove_ep_from(s, i).len() <= if i < s.len() {
            s.len() - i
        } else {
            0
        },
    decreases s.len() - i,
{
    if i < s.len() {
        if i + 4 <= s.len() && s.subrange(i, i + 4) == ep_suffix() {
            lemma_remove_ep_len(s, i + 4);
        } else {
            lemma_remove_ep_len(s, i + 1);
        }
    }
}

proof fn lemma_trim_start_len(s: Seq<char>)
    ensures
        trim_start(s).len() <= s.len(),
    decreases s.len(),
{
    if s.len() > 0 && is_space(s[0]) {
        lemma_trim_start_len(s.drop_first());
    }
}

proof fn lemma_trim_end_len(s: Seq<char>)
    ensures
        trim_end(s).len() <= s.len(),
    decreases s.len(),
{
    if s.len() > 0 && is_space(s.last()) {
        lemma_trim_end_len(s.drop_last());
    }
}

/// The characters of `s`.
pub(crate) fn chars_of(s: &str) -> (r: Vec<char>)
    ensures
        r@ == s@,
{
    let n = s.unicode_len();
    let mut r: Vec<char> = Vec::new();
    let mut i: usize = 0;
    while i < n
        invariant
            i <= n,
            n == s@.len(),
            r@ == s@.subrange(0, i as int),
        decreases n - i,
    {
        r.push(s.get_char(i));
        i += 1;
        assert(r@ =~= s@.subrange(0, i as int));
    }
    assert(r@ =~= s@);
    r
}

fn is_mark_char(c: char) -> (r: bool)
    ensures
        r == is_mark(c),
{
    c == 'x' || c == ':' || c == '=' || c == '(' || c == ')' || c == '/' || c == '+' || c == '#'
}

fn is_space_char(c: char) -> (r: bool)
    ensures
        r == is_space(c),
{
    ('\u{9}' <= c && c <= '\u{d}') || c == ' ' || c == '\u{85}' || c == '\u{a0}' || c == '\u{1680}'
        || ('\u{2000}' <= c && c <= '\u{200a}') || c == '\u{2028}' || c == '\u{2029}' || c
        == '\u{202f}' || c == '\u{205f}' || c == '\u{3000}'
}

/// `s` without the marks.
pub(crate) fn strip_mark_chars(s: &Vec<char>) -> (r: Vec<char>)
    ensures
        r@ == strip_marks(s@),
{
    let mut r: Vec<char> = Vec::new();
    let mut i: usize = 0;
    while i < s.len()
        invariant
            i <= s@.len(),
            r@ == strip_marks(s@.subrange(0, i as int)),
        decreases s@.len() - i,
    {
        let c = s[i];
        if !is_mark_char(c) {
            r.push(c);
        }
        proof {
            let t = s@.subrange(0, i + 1);
            assert(t.drop_last() =~= s@.subrange(0, i as int));
            assert(t.last() == c);
        }
        i += 1;
        assert(r@ =~= strip_marks(s@.subrange(0, i as int)));
    }
    assert(s@.subrange(0, s@.len() as int) =~= s@);
    r
}

/// `s` with each `e.p.` removed, left to right.
pub(crate) fn remove_ep(s: &Vec<char>) -> (r: Vec<char>)
    ensures
        r@ == remove_ep_from(s@, 0),
{
    let n = s.len();
    let mut r: Vec<char> = Vec::new();
    let mut i: usize = 0;
    while i < n
        invariant
            i <= n,
            n == s@.len(),
            r@ + remove_ep_from(s@, i as int) == remove_ep_from(s@, 0),
        decreases n - i,
    {
        if n - i >= 4 && s[i] == 'e' && s[i + 1] == '.' && s[i + 2] == 'p' && s[i + 3] == '.' {
            assert(s@.subrange(i as int, i + 4) =~= ep_suffix());
            i += 4;
        } else {
            assert(i + 4 <= n ==> s@.subrange(i as int, i + 4) != ep_suffix()) by {
                if i + 4 <= n && s@.subrange(i as int, i + 4) == ep_suffix() {
                    assert(s@.subrange(i as int, i + 4)[0] == s@[i as int]);
                    assert(s@.subrange(i as int, i + 4)[1] == s@[i + 1]);
                    assert(s@.subrange(i as int, i + 4)[2] == s@[i + 2]);
                    assert(s@.subrange(i as int, i + 4)[3] == s@[i + 3]);
                }
            }
            let ghost before = r@;
            r.push(s[i]);
            assert(r@ == before + seq![s@[i as int]]);
            assert(r@ + remove_ep_from(s@, i + 1) =~= before + (seq![s@[i as int]] + remove_ep_from(
                s@,
                i + 1,
            )));
            i += 1;
        }
    }
    assert(r@ =~= remove_ep_from(s@, 0));
    r
}

/// `s` with each zero replaced by the letter O.
pub(crate) fn zeros_to_o(s: &Vec<char>) -> (r: Vec<char>)
    ensures
        r@ == s@.map_values(|c: char| o_for_zero(c)),
{
    let mut r: Vec<char> = Vec::new();
    let mut i: usize = 0;
    while i < s.len()
        invariant
            i <= s@.len(),
            r@ == s@.subrange(0, i as int).map_values(|c: char| o_for_zero(c)),
        decreases s@.len() - i,
    {
        let c = s[i];
        r.push(
            if c == '0' {
                'O'
            } else {
                c
            },
        );
        i += 1;
        assert(r@ =~= s@.subrange(0, i as int).map_values(|c: char| o_for_zero(c)));
    }
    assert(s@.subrange(0, s@.len() as int) =~= s@);
    r
}

/// `s` without white space at either end.
pub(crate) fn trim(s: &Vec<char>) -> (r: Vec<char>)
    ensures
        r@ == trim_end(trim_start(s@)),
{
    let n = s.len();
    let mut a: usize = 0;
    assert(s@.subrange(0, n as int) =~= s@);
    while a < n && is_space_char(s[a])
        invariant
            a <= n,
            n == s@.len(),
            trim_start(s@) == trim_start(s@.subrange(a as int, n as int)),
        decreases n - a,
    {
        assert(s@.subrange(a as int, n as int).drop_first() =~= s@.subrange(a + 1, n as int));
        a += 1;
    }
    assert(trim_start(s@) == s@.subrange(a as int, n as int));
    let ghost t = s@.subrange(a as int, n as int);
    let mut b: usize = n;
    while b > a && is_space_char(s[b - 1])
        invariant
            a <= b <= n,
            n == s@.len(),
            t == s@.subrange(a as int, n as int),
            trim_end(t) == trim_end(s@.subrange(a as int, b as int)),
        decreases b,
    {
        assert(s@.subrange(a as int, b as int).drop_last() =~= s@.subrange(a as int, b - 1));
        b -= 1;
    }
    let mut r: Vec<char> = Vec::new();
    let mut i = a;
    while i < b
        invariant
            a <= i <= b,
            b <= n,
            n == s@.len(),
            r@ == s@.subrange(a as int, i as int),
        decreases b - i,
    {
        r.push(s[i]);
        i += 1;
        assert(r@ =~= s@.subrange(a as int, i as int));
    }
    r
}

/// The side that a castling token names, if the move is one.
pub(crate) fn castle_token(s: &Vec<char>) -> (r: Option<bool>)
    ensures
        r == castle_side(s@),
{
    let n = s.len();
    if n == 3 && s[0] == 'O' && s[1] == '-' && s[2] == 'O' {
        assert(s@ =~= seq!['O', '-', 'O']);
        return Some(true);
    }
    if n == 5 && s[0] == 'O' && s[1] == '-' && s[2] == 'O' && s[3] == '-' && s[4] == 'O' {
        assert(s@ =~= seq!['O', '-', 'O', '-', 'O']);
        return Some(false);
    }
    assert(s@ != seq!['O', '-', 'O']) by {
        if s@ == seq!['O', '-', 'O'] {
            assert(s@[0] == 'O' && s@[1] == '-' && s@[2] == 'O');
        }
    }
    assert(s@ != seq!['O', '-', 'O', '-', 'O']) by {
        if s@ == seq!['O', '-', 'O', '-', 'O'] {
            assert(s@[0] == 'O' && s@[1] == '-' && s@[2] == 'O' && s@[3] == '-' && s@[4] == 'O');
        }
    }
    None
}

} // verus!
