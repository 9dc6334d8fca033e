//! The parser: turns one line of program text into an ordered sequence of
//! AST nodes.
//!
//! Tokens are matched at the current position (a number is a maximal run of
//! decimal digits whose value fits 16 bits; the keywords and the three
//! operator symbols match literally) and consecutive tokens must be parted by
//! at least one whitespace byte. A loop is written `times <token>* end`.
//! Parsing never fails outright: it collects the longest well-formed prefix
//! and reports where the unconsumed remainder begins, and a whole construct
//! is left unconsumed when its inside cannot be parsed — an unclosed `times`
//! gives back everything from the `times` on.

use vstd::prelude::*;

use crate::ast::{
    Expr, ExprView, Op, abs_expr, abs_prog, lemma_abs_prog_len, lemma_abs_prog_snoc,
};

verus! {

/// Unparseable or partially parsed input: `at` is the byte offset of the
/// first unconsumed input.
#[derive(Copy, Clone, Debug, PartialEq, Eq, Structural)]
pub struct SyntaxError {
    pub at: usize,
}

/// One lexical token.
#[derive(Copy, Clone, Debug, PartialEq, Eq, Structural)]
pub enum Token {
    /// A decimal literal that fits 16 bits.
    Number(u16),
    Plus,
    Minus,
    Star,
    Dup,
    Swap,
    Over,
    /// Opens a loop.
    Times,
    /// Closes a loop.
    End,
}

/// The whitespace bytes that part tokens: space, tab, carriage return,
/// line feed.
pub open spec fn is_ws(b: u8) -> bool {
    b == 32 || b == 9 || b == 13 || b == 10
}

/// A decimal digit byte.
pub open spec fn is_digit(b: u8) -> bool {
    48 <= b <= 57
}

/// How many digit bytes run on from position `i`.
pub open spec fn digit_count(s: Seq<u8>, i: int) -> nat
    decreases s.len() - i,
{
    if 0 <= i < s.len() && is_digit(s[i]) {
        (1 + digit_count(s, i + 1)) as nat
    } else {
        0
    }
}

/// The value of the `k` digit bytes starting at `i`, read as decimal.
pub open spec fn digits_val(s: Seq<u8>, i: int, k: nat) -> int
    decreases k,
{
    if k == 0 {
        0
    } else {
        10 * digits_val(s, i, (k - 1) as nat) + (s[i + k - 1] - 48)
    }
}

/// The bytes of `dup` stand at `i`.
pub open spec fn kw_dup_at(s: Seq<u8>, i: int) -> bool {
    i + 3 <= s.len() && s[i] == 100 && s[i + 1] == 117 && s[i + 2] == 112
}

/// The bytes of `swap` stand at `i`.
pub open spec fn kw_swap_at(s: Seq<u8>, i: int) -> bool {
    i + 4 <= s.len() && s[i] == 115 && s[i + 1] == 119 && s[i + 2] == 97 && s[i + 3] == 112
}

/// The bytes of `over` stand at `i`.
pub open spec fn kw_over_at(s: Seq<u8>, i: int) -> bool {
    i + 4 <= s.len() && s[i] == 111 && s[i + 1] == 118 && s[i + 2] == 101 && s[i + 3] == 114
}

/// The bytes of `times` stand at `i`.
pub open spec fn kw_times_at(s: Seq<u8>, i: int) -> bool {
    i + 5 <= s.len() && s[i] == 116 && s[i + 1] == 105 && s[i + 2] == 109 && s[i + 3] == 101
        && s[i + 4] == 115
}

/// The bytes of `end` stand at `i`.
pub open spec fn kw_end_at(s: Seq<u8>, i: int) -> bool {
    i + 3 <= s.len() && s[i] == 101 && s[i + 1] == 110 && s[i + 2] == 100
}

/// The token that begins at position `i`, with its length in bytes, or
/// `None` where no token does. A digit run longer than 16 bits yields no
/// token at all.
pub open spec fn spec_lex(s: Seq<u8>, i: int) -> Option<(Token, nat)> {
    if i < 0 || i >= s.len() {
        None
    } else if is_digit(s[i]) {
        let k = (1 + digit_count(s, i + 1)) as nat;
        if digits_val(s, i, k) <= 65535 {
            Some((Token::Number(digits_val(s, i, k) as u16), k))
        } else {
            None
        }
    } else if s[i] == 43 {
        Some((Token::Plus, 1nat))
    } else if s[i] == 45 {
        Some((Token::Minus, 1nat))
    } else if s[i] == 42 {
        Some((Token::Star, 1nat))
    } else if kw_times_at(s, i) {
        Some((Token::Times, 5nat))
    } else if kw_dup_at(s, i) {
        Some((Token::Dup, 3nat))
    } else if kw_swap_at(s, i) {
        Some((Token::Swap, 4nat))
    } else if kw_over_at(s, i) {
        Some((Token::Over, 4nat))
    } else if kw_end_at(s, i) {
        Some((Token::End, 3nat))
    } else {
        None
    }
}

/// The first non-whitespace position at or after `i`.
pub open spec fn skip_ws(s: Seq<u8>, i: int) -> int
    decreases s.len() - i,
{
    if 0 <= i < s.len() && is_ws(s[i]) {
        skip_ws(s, i + 1)
    } else {
        i
    }
}

/// An open parse scope: the position to report if the scope never closes,
/// and the nodes collected in it so far. The first frame is the top level;
/// each further frame is a loop still awaiting its `end`.
pub open spec fn push_top(frames: Seq<(int, Seq<ExprView>)>, e: ExprView) -> Seq<
    (int, Seq<ExprView>),
>
    recommends
        frames.len() >= 1,
{
    frames.update(frames.len() - 1, (frames.last().0, frames.last().1.push(e)))
}

/// What parsing reports when it stops at `pos`: the top-level program, and
/// either `pos` itself or, if a loop is still open, the position recorded for
/// the outermost unclosed `times` — that whole construct is unconsumed.
pub open spec fn spec_stop(frames: Seq<(int, Seq<ExprView>)>, pos: int) -> (Seq<ExprView>, int)
    recommends
        frames.len() >= 1,
{
    if frames.len() <= 1 {
        (frames[0].1, pos)
    } else {
        (frames[0].1, frames[1].0)
    }
}

/// One token's effect on the open scopes. `Times` opens a scope that
/// remembers `back`, the position parsing would give back were the loop never
/// closed; `End` closes the innermost scope into a `Loop` node. `None` means
/// the token cannot stand here — an `end` with no open loop — which stops
/// parsing before the token.
pub open spec fn spec_apply(t: Token, back: int, frames: Seq<(int, Seq<ExprView>)>) -> Option<
    Seq<(int, Seq<ExprView>)>,
>
    recommends
        frames.len() >= 1,
{
    match t {
        Token::Number(v) => Some(push_top(frames, ExprView::Number(v))),
        Token::Plus => Some(push_top(frames, ExprView::Op(Op::Add))),
        Token::Minus => Some(push_top(frames, ExprView::Op(Op::Sub))),
        Token::Star => Some(push_top(frames, ExprView::Op(Op::Mul))),
        Token::Dup => Some(push_top(frames, ExprView::Dup)),
        Token::Swap => Some(push_top(frames, ExprView::Swap)),
        Token::Over => Some(push_top(frames, ExprView::Over)),
        Token::Times => Some(frames.push((back, Seq::<ExprView>::empty()))),
        Token::End => if frames.len() <= 1 {
            None
        } else {
            Some(push_top(frames.drop_last(), ExprView::Loop(frames.last().1)))
        },
    }
}

/// Parses from position `i` with the given open scopes. `back` is the
/// position parsing gives back if the token here fails: the end of the
/// previous token, before the whitespace already consumed. Consecutive
/// tokens must be parted by whitespace, so a token not followed by
/// whitespace or the end of input stops parsing right after it.
pub open spec fn spec_parse_at(
    s: Seq<u8>,
    i: int,
    back: int,
    frames: Seq<(int, Seq<ExprView>)>,
) -> (Seq<ExprView>, int)
    recommends
        frames.len() >= 1,
    decreases s.len() - i,
{
    match spec_lex(s, i) {
        None => spec_stop(frames, back),
        Some((t, k)) => {
            let j = i + k;
            match spec_apply(t, back, frames) {
                None => spec_stop(frames, back),
                Some(frames2) => {
                    let ip = skip_ws(s, j);
                    if j >= s.len() {
                        spec_stop(frames2, j)
                    } else if ip == j {
                        spec_stop(frames2, j)
                    } else if i < ip <= s.len() {
                        spec_parse_at(s, ip, j, frames2)
                    } else {
                        // never reached: skipping whitespace moves forward
                        // within bounds; the guard only makes that evident to
                        // the termination check
                        spec_stop(frames2, j)
                    }
                },
            }
        },
    }
}

/// Parses a whole input line: the program collected at top level, and the
/// byte position of the first unconsumed input (the input's length when
/// everything was consumed).
pub open spec fn spec_parse(s: Seq<u8>) -> (Seq<ExprView>, int) {
    spec_parse_at(s, 0, 0, seq![(0int, Seq::<ExprView>::empty())])
}

/// The abstraction of the executable scope stack.
pub open spec fn abs_frames(fs: Seq<(usize, Vec<Expr>)>) -> Seq<(int, Seq<ExprView>)> {
    fs.map_values(|f: (usize, Vec<Expr>)| (f.0 as int, abs_prog(f.1@)))
}

/// Reads the single token that begins at `i`, returning it with the position
/// just past its last byte.
#[verifier::loop_isolation(false)]
pub fn parse_token(input: &[u8], i: usize) -> (r: Option<(Token, usize)>)
    requires
        i <= input@.len(),
    ensures
        match r {
            Some((t, j)) => i < j <= input@.len() && spec_lex(input@, i as int) == Some(
                (t, (j - i) as nat),
            ),
            None => spec_lex(input@, i as int) is None,
        },
{
    if i >= input.len() {
        return None;
    }
    let b = input[i];
    if b >= 48 && b <= 57 {
        let mut j = i + 1;
        while j < input.len() && input[j] >= 48 && input[j] <= 57
            invariant
                i + 1 <= j <= input@.len(),
                forall|m: int| i <= m < j ==> is_digit(input@[m]),
                digit_count(input@, i + 1) == (j - i - 1) + digit_count(input@, j as int),
            decreases input@.len() - j,
        {
            j = j + 1;
        }
        proof {
            assert(digit_count(input@, j as int) == 0);
            assert(digits_val(input@, i as int, 0nat) == 0);
            assert(digits_val(input@, i as int, 1nat) == b - 48);
        }
        let mut val: u32 = (b - 48) as u32;
        let mut big: bool = false;
        let mut c = i + 1;
        while c < j
            invariant
                i < c <= j,
                big ==> digits_val(input@, i as int, (c - i) as nat) > 65535,
                !big ==> val == digits_val(input@, i as int, (c - i) as nat) && val <= 65535,
            decreases j - c,
        {
            let d = (input[c] - 48) as u32;
            if big {
                proof {
                    assert(digits_val(input@, i as int, (c + 1 - i) as nat) == 10 * digits_val(
                        input@,
                        i as int,
                        (c - i) as nat,
                    ) + d);
                }
            } else {
                let v2 = val * 10 + d;
                proof {
                    assert(digits_val(input@, i as int, (c + 1 - i) as nat) == 10 * digits_val(
                        input@,
                        i as int,
                        (c - i) as nat,
                    ) + d);
                }
                if v2 > 65535 {
                    big = true;
                } else {
                    val = v2;
                }
            }
            c = c + 1;
        }
        if big {
            return None;
        }
        Some((Token::Number(val as u16), j))
    } else if b == 43 {
        Some((Token::Plus, i + 1))
    } else if b == 45 {
        Some((Token::Minus, i + 1))
    } else if b == 42 {
        Some((Token::Star, i + 1))
    } else if b == 116 {
        if input.len() - i >= 5 && input[i + 1] == 105 && input[i + 2] == 109 && input[i + 3]
            == 101 && input[i + 4] == 115 {
            Some((Token::Times, i + 5))
        } else {
            None
        }
    } else if b == 100 {
        if input.len() - i >= 3 && input[i + 1] == 117 && input[i + 2] == 112 {
            Some((Token::Dup, i + 3))
        } else {
            None
        }
    } else if b == 115 {
        if input.len() - i >= 4 && input[i + 1] == 119 && input[i + 2] == 97 && input[i + 3]
            == 112 {
            Some((Token::Swap, i + 4))
        } else {
            None
        }
    } else if b == 111 {
        if input.len() - i >= 4 && input[i + 1] == 118 && input[i + 2] == 101 && input[i + 3]
            == 114 {
            Some((Token::Over, i + 4))
        } else {
            None
        }
    } else if b == 101 {
        if input.len() - i >= 3 && input[i + 1] == 110 && input[i + 2] == 100 {
            Some((Token::End, i + 3))
        } else {
            None
        }
    } else {
        None
    }
}

/// Advances past whitespace.
#[verifier::loop_isolation(false)]
fn skip_whitespace(input: &[u8], i: usize) -> (r: usize)
    requires
        i <= input@.len(),
    ensures
        r as int == skip_ws(input@, i as int),
        i <= r <= input@.len(),
{
    let mut r = i;
    while r < input.len() && (input[r] == 32 || input[r] == 9 || input[r] == 13 || input[r] == 10)
        invariant
            i <= r <= input@.len(),
            skip_ws(input@, i as int) == skip_ws(input@, r as int),
        decreases input@.len() - r,
    {
        r = r + 1;
    }
    r
}

/// Appends one node to the innermost open scope.
fn push_top_frame(frames: &mut Vec<(usize, Vec<Expr>)>, e: Expr)
    requires
        old(frames)@.len() >= 1,
    ensures
        final(frames)@.len() == old(frames)@.len(),
        abs_frames(final(frames)@) == push_top(abs_frames(old(frames)@), abs_expr(e)),
        forall|m: int|
            0 <= m < final(frames)@.len() ==> final(frames)@[m].0 == old(frames)@[m].0,
{
    let ghost before = frames@;
    let mut top = frames.pop().unwrap();
    top.1.push(e);
    frames.push(top);
    proof {
        lemma_abs_prog_snoc(before.last().1@, e);
        assert(abs_prog(before.last().1@.push(e)) =~= abs_prog(before.last().1@).push(abs_expr(e)));
        assert(abs_frames(frames@) =~= push_top(abs_frames(before), abs_expr(e)));
    }
}

/// Turns the scope stack into parsing's report, stopped at `pos`.
fn finish(frames: Vec<(usize, Vec<Expr>)>, pos: usize) -> (r: (Vec<Expr>, usize))
    requires
        frames@.len() >= 1,
    ensures
        abs_prog(r.0@) == spec_stop(abs_frames(frames@), pos as int).0,
        r.1 as int == spec_stop(abs_frames(frames@), pos as int).1,
        r.1 == pos || (frames@.len() > 1 && r.1 == frames@[1].0),
{
    let rest: usize = if frames.len() > 1 {
        let f = &frames[1];
        f.0
    } else {
        pos
    };
    let mut fs = frames;
    while fs.len() > 1
        invariant
            fs@.len() >= 1,
            fs@[0] == frames@[0],
        decreases fs@.len(),
    {
        let ghost before = fs@;
        let _ = fs.pop();
        proof {
            assert(fs@[0] == before[0]);
        }
    }
    let first = fs.pop().unwrap();
    (first.1, rest)
}

/// Parses the longest well-formed prefix of the input, returning the
/// program it denotes and the byte position of the first unconsumed input.
#[verifier::loop_isolation(false)]
pub fn parse_expression(input: &[u8]) -> (r: (Vec<Expr>, usize))
    ensures
        abs_prog(r.0@) == spec_parse(input@).0,
        r.1 as int == spec_parse(input@).1,
        r.1 <= input@.len(),
{
    let ghost s = input@;
    let mut frames: Vec<(usize, Vec<Expr>)> = Vec::new();
    let empty_prog: Vec<Expr> = Vec::new();
    frames.push((0, empty_prog));
    proof {
        assert(abs_frames(frames@) =~= seq![(0int, Seq::<ExprView>::empty())]);
    }
    let mut i: usize = 0;
    let mut back: usize = 0;
    loop
        invariant
            frames@.len() >= 1,
            i <= s.len(),
            back <= s.len(),
            forall|m: int| 0 <= m < frames@.len() ==> frames@[m].0 <= s.len(),
            spec_parse_at(s, i as int, back as int, abs_frames(frames@)) == spec_parse(s),
        decreases s.len() - i,
    {
        let tok = parse_token(input, i);
        match tok {
            None => {
                return finish(frames, back);
            },
            Some((t, j)) => {
                let ghost frames_in = abs_frames(frames@);
                match t {
                    Token::Number(v) => {
                        push_top_frame(&mut frames, Expr::Number(v));
                    },
                    Token::Plus => {
                        push_top_frame(&mut frames, Expr::Op(Op::Add));
                    },
                    Token::Minus => {
                        push_top_frame(&mut frames, Expr::Op(Op::Sub));
                    },
                    Token::Star => {
                        push_top_frame(&mut frames, Expr::Op(Op::Mul));
                    },
                    Token::Dup => {
                        push_top_frame(&mut frames, Expr::Dup);
                    },
                    Token::Swap => {
                        push_top_frame(&mut frames, Expr::Swap);
                    },
                    Token::Over => {
                        push_top_frame(&mut frames, Expr::Over);
                    },
                    Token::Times => {
                        let body: Vec<Expr> = Vec::new();
                        frames.push((back, body));
                        proof {
                            assert(abs_frames(frames@) =~= frames_in.push(
                                (back as int, Seq::<ExprView>::empty()),
                            ));
                        }
                    },
                    Token::End => {
                        if frames.len() == 1 {
                            return finish(frames, back);
                        }
                        let ghost before = frames@;
                        let closed = frames.pop().unwrap();
                        proof {
                            assert(abs_frames(frames@) =~= abs_frames(before).drop_last());
                        }
                        push_top_frame(&mut frames, Expr::Loop(closed.1));
                        proof {
                            assert(abs_expr(Expr::Loop(closed.1)) == ExprView::Loop(
                                abs_frames(before).last().1,
                            ));
                        }
                    },
                }
                proof {
                    assert(Some(abs_frames(frames@)) == spec_apply(
                        t,
                        back as int,
                        frames_in,
                    ));
                }
                if j >= input.len() {
                    return finish(frames, j);
                }
                let ip = skip_whitespace(input, j);
                if ip == j {
                    return finish(frames, j);
                }
                back = j;
                i = ip;
            },
        }
    }
}

/// Parses a whole line as one program: succeeds exactly when at least one
/// node was parsed and nothing is left over; otherwise reports the first
/// unconsumed input.
pub fn parse_program(input: &[u8]) -> (r: Result<Vec<Expr>, SyntaxError>)
    ensures
        ({
            let (p, rest) = spec_parse(input@);
            match r {
                Ok(prog) => abs_prog(prog@) == p && p.len() > 0 && rest == input@.len(),
                Err(e) => e.at == rest && (rest < input@.len() || p.len() == 0),
            }
        }),
{
    let (prog, rest) = parse_expression(input);
    proof {
        lemma_abs_prog_len(prog@);
    }
    if rest < input.len() || prog.len() == 0 {
        return Err(SyntaxError { at: rest });
    }
    Ok(prog)
}

} // verus!
