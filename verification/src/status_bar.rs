//! The status line's format language: a configured format string is
//! compiled once into tokens, and the tokens are rendered against the
//! current viewing state. Only this pure text layer lives here; putting
//! glyphs on screen is the front-end's business.

use vstd::prelude::*;
use crate::events::InputMode;
use crate::strutil::{string_push, string_push_str};

verus! {

/// One compiled piece of a status format: literal text, or a field of
/// the viewing state.
pub enum StatusToken {
    Literal(String),
    Path,
    Prefix,
    Slideshow,
    Zoom,
    Index,
    Mark,
}

/// The ghost shape of a compiled token, with literal text as its
/// characters.
pub enum StatusPiece {
    Literal(Seq<char>),
    Path,
    Prefix,
    Slideshow,
    Zoom,
    Index,
    Mark,
}

/// The ghost shape of one token.
pub open spec fn piece_of(t: StatusToken) -> StatusPiece {
    match t {
        StatusToken::Literal(s) => StatusPiece::Literal(s@),
        StatusToken::Path => StatusPiece::Path,
        StatusToken::Prefix => StatusPiece::Prefix,
        StatusToken::Slideshow => StatusPiece::Slideshow,
        StatusToken::Zoom => StatusPiece::Zoom,
        StatusToken::Index => StatusPiece::Index,
        StatusToken::Mark => StatusPiece::Mark,
    }
}

/// The ghost shapes of a token run.
pub open spec fn pieces_of(ts: Seq<StatusToken>) -> Seq<StatusPiece> {
    ts.map(|i: int, t: StatusToken| piece_of(t))
}

/// The field a format specifier stands for, if it is one.
pub open spec fn specifier_piece(c: char) -> Option<StatusPiece> {
    if c == 'p' {
        Some(StatusPiece::Path)
    } else if c == 'P' {
        Some(StatusPiece::Prefix)
    } else if c == 's' {
        Some(StatusPiece::Slideshow)
    } else if c == 'z' {
        Some(StatusPiece::Zoom)
    } else if c == 'i' {
        Some(StatusPiece::Index)
    } else if c == 'm' {
        Some(StatusPiece::Mark)
    } else {
        None
    }
}

/// Pending literal text as a token run: nothing when it is empty.
pub open spec fn flushed(lit: Seq<char>) -> Seq<StatusPiece> {
    if lit.len() == 0 {
        Seq::empty()
    } else {
        seq![StatusPiece::Literal(lit)]
    }
}

/// What compiling the rest of a format string yields, with `lit` the
/// literal text accumulated so far: `%` followed by a known specifier
/// cuts a field token, `%%` is a literal percent, an unknown specifier
/// and a trailing percent stay literal text.
pub open spec fn compiled(fmt: Seq<char>, lit: Seq<char>) -> Seq<StatusPiece>
    decreases fmt.len(),
{
    if fmt.len() == 0 {
        flushed(lit)
    } else if fmt[0] != '%' {
        compiled(fmt.skip(1), lit.push(fmt[0]))
    } else if fmt.len() == 1 {
        flushed(lit.push('%'))
    } else {
        let c = fmt[1];
        match specifier_piece(c) {
            Some(piece) => flushed(lit) + seq![piece] + compiled(fmt.skip(2), Seq::empty()),
            None => if c == '%' {
                compiled(fmt.skip(2), lit.push('%'))
            } else {
                compiled(fmt.skip(2), lit.push('%').push(c))
            },
        }
    }
}

/// Compile a configured status format string into its token run.
pub fn compile_format(fmt: &str) -> (r: Vec<StatusToken>)
    ensures
        pieces_of(r@) == compiled(fmt@, Seq::empty()),
{
    let n: usize = fmt.unicode_len();
    let mut tokens: Vec<StatusToken> = Vec::new();
    let mut lit = String::new();
    let mut i: usize = 0;
    proof {
        assert(fmt@.skip(0) =~= fmt@);
        assert(pieces_of(tokens@) + compiled(fmt@, lit@) =~= compiled(fmt@, Seq::empty()));
    }
    while i < n
        invariant
            n == fmt@.len(),
            i <= n,
            compiled(fmt@, Seq::empty()) == pieces_of(tokens@) + compiled(
                fmt@.skip(i as int),
                lit@,
            ),
        decreases n - i,
    {
        let ghost rest = fmt@.skip(i as int);
        let c = fmt.get_char(i);
        proof {
            assert(rest[0] == fmt@[i as int]);
            assert(rest.skip(1) =~= fmt@.skip(i as int + 1));
            if i + 2 <= n {
                assert(rest[1] == fmt@[i as int + 1]);
                assert(rest.skip(2) =~= fmt@.skip(i as int + 2));
            }
        }
        if c != '%' {
            string_push(&mut lit, c);
            i = i + 1;
        } else if i + 1 == n {
            string_push(&mut lit, '%');
            i = i + 1;
            proof {
                assert(fmt@.skip(i as int).len() == 0);
            }
        } else {
            let next = fmt.get_char(i + 1);
            let token: Option<StatusToken> = if next == 'p' {
                Some(StatusToken::Path)
            } else if next == 'P' {
                Some(StatusToken::Prefix)
            } else if next == 's' {
                Some(StatusToken::Slideshow)
            } else if next == 'z' {
                Some(StatusToken::Zoom)
            } else if next == 'i' {
                Some(StatusToken::Index)
            } else if next == 'm' {
                Some(StatusToken::Mark)
            } else {
                None
            };
            match token {
                Some(t) => {
                    let ghost tokens_before = tokens@;
                    let ghost lit_before = lit@;
                    if lit.unicode_len() > 0 {
                        tokens.push(StatusToken::Literal(lit));
                        lit = String::new();
                    }
                    proof {
                        assert(pieces_of(tokens@) =~= pieces_of(tokens_before) + flushed(
                            lit_before,
                        ));
                    }
                    let ghost mid = tokens@;
                    proof {
                        assert(piece_of(t) == specifier_piece(fmt@[i as int + 1])->0);
                    }
                    tokens.push(t);
                    proof {
                        assert(pieces_of(tokens@) =~= pieces_of(mid).push(piece_of(t)));
                        assert(pieces_of(tokens@) =~= pieces_of(tokens_before) + flushed(
                            lit_before,
                        ) + seq![specifier_piece(fmt@[i as int + 1])->0]);
                    }
                    i = i + 2;
                    proof {
                        assert(lit@ =~= Seq::<char>::empty());
                        assert(compiled(fmt@.skip(i as int), lit@) == compiled(
                            fmt@.skip(i as int),
                            Seq::empty(),
                        ));
                        assert(pieces_of(tokens@) + compiled(fmt@.skip(i as int), lit@)
                            =~= compiled(fmt@, Seq::empty()));
                    }
                },
                None => {
                    string_push(&mut lit, '%');
                    if next != '%' {
                        string_push(&mut lit, next);
                    }
                    i = i + 2;
                },
            }
        }
    }
    proof {
        assert(fmt@.skip(n as int).len() == 0);
    }
    if lit.unicode_len() > 0 {
        let ghost tokens_before = tokens@;
        let ghost lit_before = lit@;
        tokens.push(StatusToken::Literal(lit));
        proof {
            assert(pieces_of(tokens@) =~= pieces_of(tokens_before) + flushed(lit_before));
        }
    } else {
        proof {
            assert(pieces_of(tokens@) + flushed(lit@) =~= pieces_of(tokens@));
        }
    }
    tokens
}

/// Everything the status line can show, as plain values.
pub struct StatusContext {
    pub scale_percent: u32,
    pub index: usize,
    pub total: usize,
    pub path: String,
    pub is_marked: bool,
    pub input_mode: InputMode,
    pub prefix_count: Option<usize>,
    pub slideshow_on: bool,
    pub slideshow_delay_secs: u64,
    pub filter_text: String,
}

/// The character of one decimal digit.
pub open spec fn digit_char(d: int) -> char {
    ((48 + d) as u8) as char
}

/// The decimal spelling of a nonnegative number.
pub open spec fn dec_digits(n: int) -> Seq<char>
    decreases n,
{
    if n < 0 {
        Seq::empty()
    } else if n < 10 {
        seq![digit_char(n)]
    } else {
        dec_digits(n / 10).push(digit_char(n % 10))
    }
}

/// The spelled digits of a run of digit values, highest digit first.
pub open spec fn spelled_backwards(ds: Seq<u8>) -> Seq<char> {
    Seq::new(ds.len(), |i: int| digit_char(ds[ds.len() - 1 - i] as int))
}

/// Append the decimal spelling of a number.
fn push_u64(out: &mut String, n: u64)
    ensures
        final(out)@ == old(out)@ + dec_digits(n as int),
{
    if n == 0 {
        string_push(out, '0');
        proof {
            assert(dec_digits(0) =~= seq![digit_char(0)]);
            assert(final(out)@ =~= old(out)@ + dec_digits(0));
        }
        return;
    }
    let mut digits: Vec<u8> = Vec::new();
    let mut m: u64 = n;
    while m > 0
        invariant
            m > 0 ==> dec_digits(n as int) == dec_digits(m as int) + spelled_backwards(digits@),
            m == 0 ==> digits@.len() > 0 && dec_digits(n as int) == spelled_backwards(digits@),
            forall|t: int| 0 <= t < digits@.len() ==> #[trigger] digits@[t] < 10,
        decreases m,
    {
        let ghost digits_before = digits@;
        let ghost m_before = m as int;
        let d: u8 = (m % 10) as u8;
        digits.push(d);
        m = m / 10;
        proof {
            assert(spelled_backwards(digits@) =~= seq![
                digit_char(m_before % 10),
            ] + spelled_backwards(digits_before));
            if m_before < 10 {
                assert(dec_digits(m_before) =~= seq![digit_char(m_before)]);
                assert(m_before % 10 == m_before);
                assert(dec_digits(n as int) =~= spelled_backwards(digits@));
            } else {
                assert(dec_digits(m_before) == dec_digits(m_before / 10).push(
                    digit_char(m_before % 10),
                ));
                assert(dec_digits(m_before) + spelled_backwards(digits_before) =~= dec_digits(
                    m as int,
                ) + spelled_backwards(digits@));
            }
        }
    }
    let k = digits.len();
    let mut j: usize = k;
    while j > 0
        invariant
            k == digits@.len(),
            j <= k,
            dec_digits(n as int) == spelled_backwards(digits@),
            forall|t: int| 0 <= t < digits@.len() ==> #[trigger] digits@[t] < 10,
            out@ == old(out)@ + spelled_backwards(digits@).subrange(0, (k - j) as int),
        decreases j,
    {
        let d = digits[j - 1];
        proof {
            assert(spelled_backwards(digits@)[k - j] == digit_char(digits@[j - 1] as int));
        }
        string_push(out, (48 + d) as char);
        j = j - 1;
        proof {
            assert(out@ =~= old(out)@ + spelled_backwards(digits@).subrange(0, (k - j) as int));
        }
    }
    proof {
        assert(spelled_backwards(digits@).subrange(0, k as int) =~= spelled_backwards(digits@));
    }
}

/// What one token reads as against the viewing state. The path slot
/// doubles as the interaction prompt: the filter text while filtering,
/// and the handler prompts while a handler key or target is awaited.
pub open spec fn piece_text(p: StatusPiece, ctx: StatusContext) -> Seq<char> {
    match p {
        StatusPiece::Literal(s) => s,
        StatusPiece::Path => match ctx.input_mode {
            InputMode::Normal => ctx.path@,
            InputMode::Filtering => seq!['/'] + ctx.filter_text@ + seq!['\u{2588}'],
            InputMode::WaitingForHandler => "[Handler] Press key... (Esc to cancel)"@,
            InputMode::AwaitingTarget(_) => "[Target] (c)urrent/(m)arked? (Esc to cancel)"@,
        },
        StatusPiece::Prefix => match ctx.prefix_count {
            Some(n) => dec_digits(n as int),
            None => Seq::empty(),
        },
        StatusPiece::Slideshow => if ctx.slideshow_on {
            dec_digits(ctx.slideshow_delay_secs as int) + seq!['s']
        } else {
            Seq::empty()
        },
        StatusPiece::Zoom => dec_digits(ctx.scale_percent as int) + seq!['%'],
        StatusPiece::Index => dec_digits(ctx.index as int) + seq!['/'] + dec_digits(
            ctx.total as int,
        ),
        StatusPiece::Mark => if ctx.is_marked {
            seq!['*']
        } else {
            Seq::empty()
        },
    }
}

/// What a token run reads as, in order.
pub open spec fn rendered(ps: Seq<StatusPiece>, ctx: StatusContext) -> Seq<char>
    decreases ps.len(),
{
    if ps.len() == 0 {
        Seq::empty()
    } else {
        rendered(ps.drop_last(), ctx) + piece_text(ps.last(), ctx)
    }
}

/// Render a compiled token run against the viewing state, appending to
/// the target text.
pub fn render_tokens(target: &mut String, tokens: &Vec<StatusToken>, ctx: &StatusContext)
    ensures
        final(target)@ == old(target)@ + rendered(pieces_of(tokens@), *ctx),
{
    let n = tokens.len();
    let mut i: usize = 0;
    proof {
        assert(rendered(pieces_of(tokens@).subrange(0, 0), *ctx) =~= Seq::<char>::empty());
        assert(target@ =~= old(target)@ + rendered(pieces_of(tokens@).subrange(0, 0), *ctx));
    }
    while i < n
        invariant
            n == tokens@.len(),
            i <= n,
            target@ == old(target)@ + rendered(pieces_of(tokens@).subrange(0, i as int), *ctx),
        decreases n - i,
    {
        let ghost before = target@;
        match &tokens[i] {
            StatusToken::Literal(s) => {
                string_push_str(target, s.as_str());
            },
            StatusToken::Path => {
                match &ctx.input_mode {
                    InputMode::Normal => {
                        string_push_str(target, ctx.path.as_str());
                    },
                    InputMode::Filtering => {
                        string_push(target, '/');
                        string_push_str(target, ctx.filter_text.as_str());
                        string_push(target, '\u{2588}');
                    },
                    InputMode::WaitingForHandler => {
                        string_push_str(target, "[Handler] Press key... (Esc to cancel)");
                    },
                    InputMode::AwaitingTarget(_) => {
                        string_push_str(target, "[Target] (c)urrent/(m)arked? (Esc to cancel)");
                    },
                }
            },
            StatusToken::Prefix => {
                match ctx.prefix_count {
                    Some(count) => push_u64(target, count as u64),
                    None => {
                    },
                }
            },
            StatusToken::Slideshow => {
                if ctx.slideshow_on {
                    push_u64(target, ctx.slideshow_delay_secs);
                    string_push(target, 's');
                }
            },
            StatusToken::Zoom => {
                push_u64(target, ctx.scale_percent as u64);
                string_push(target, '%');
            },
            StatusToken::Index => {
                push_u64(target, ctx.index as u64);
                string_push(target, '/');
                push_u64(target, ctx.total as u64);
            },
            StatusToken::Mark => {
                if ctx.is_marked {
                    string_push(target, '*');
                }
            },
        }
        proof {
            assert(target@ =~= before + piece_text(piece_of(tokens@[i as int]), *ctx));
            assert(pieces_of(tokens@).subrange(0, i + 1).drop_last() =~= pieces_of(
                tokens@,
            ).subrange(0, i as int));
            assert(pieces_of(tokens@).subrange(0, i + 1).last() == piece_of(tokens@[i as int]));
            assert(target@ =~= old(target)@ + rendered(
                pieces_of(tokens@).subrange(0, i + 1),
                *ctx,
            ));
        }
        i = i + 1;
    }
    proof {
        assert(pieces_of(tokens@).subrange(0, n as int) =~= pieces_of(tokens@));
    }
}

} // verus!
