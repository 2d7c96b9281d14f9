//! Small shared helpers: parsing a hex color triple from configuration
//! text.

use vstd::prelude::*;

verus! {

/// The value of one hexadecimal digit, either case, if it is one.
pub open spec fn hex_digit(c: char) -> Option<int> {
    if 48 <= c as int && c as int <= 57 {
        Some(c as int - 48)
    } else if 97 <= c as int && c as int <= 102 {
        Some(c as int - 87)
    } else if 65 <= c as int && c as int <= 70 {
        Some(c as int - 55)
    } else {
        None
    }
}

/// One color channel from its two hex digits; a malformed pair reads as
/// zero.
pub open spec fn hex_channel(hi: char, lo: char) -> u8 {
    match (hex_digit(hi), hex_digit(lo)) {
        (Some(a), Some(b)) => (a * 16 + b) as u8,
        _ => 0u8,
    }
}

/// The text with every leading `#` removed.
pub open spec fn strip_hash(s: Seq<char>) -> Seq<char>
    decreases s.len(),
{
    if s.len() > 0 && s[0] == '#' {
        strip_hash(s.drop_first())
    } else {
        s
    }
}

/// What a color string parses to: after stripping leading `#`, exactly
/// six characters give the three channels digit-pair by digit-pair;
/// anything else is black.
pub open spec fn parse_color_spec(s: Seq<char>) -> (u8, u8, u8) {
    let t = strip_hash(s);
    if t.len() == 6 {
        (hex_channel(t[0], t[1]), hex_channel(t[2], t[3]), hex_channel(t[4], t[5]))
    } else {
        (0u8, 0u8, 0u8)
    }
}

fn hex_digit_exec(c: char) -> (r: Option<u8>)
    ensures
        match r {
            Some(v) => hex_digit(c) == Some(v as int),
            None => hex_digit(c) is None,
        },
{
    let u = c as u32;
    if 48 <= u && u <= 57 {
        Some((u - 48) as u8)
    } else if 97 <= u && u <= 102 {
        Some((u - 87) as u8)
    } else if 65 <= u && u <= 70 {
        Some((u - 55) as u8)
    } else {
        None
    }
}

fn hex_channel_exec(hi: char, lo: char) -> (r: u8)
    ensures
        r == hex_channel(hi, lo),
{
    match (hex_digit_exec(hi), hex_digit_exec(lo)) {
        (Some(a), Some(b)) => a * 16 + b,
        _ => 0,
    }
}

/// Parse a `#rrggbb` color string into its channel triple; leading `#`
/// characters are skipped, and anything that is not six hex digits after
/// that reads as black, one malformed channel at a time.
pub fn parse_color(hex: &str) -> (r: (u8, u8, u8))
    ensures
        r == parse_color_spec(hex@),
{
    let n: usize = hex.unicode_len();
    let mut i: usize = 0;
    proof {
        assert(hex@.skip(0) =~= hex@);
    }
    while i < n && hex.get_char(i) == '#'
        invariant
            n == hex@.len(),
            i <= n,
            strip_hash(hex@) == strip_hash(hex@.skip(i as int)),
        decreases n - i,
    {
        proof {
            assert(hex@.skip(i as int)[0] == '#');
            assert(hex@.skip(i as int).drop_first() =~= hex@.skip(i as int + 1));
        }
        i = i + 1;
    }
    proof {
        if i < n {
            assert(hex@.skip(i as int)[0] != '#');
        }
        assert(strip_hash(hex@.skip(i as int)) == hex@.skip(i as int));
    }
    if n - i == 6 {
        let t0 = hex.get_char(i);
        let t1 = hex.get_char(i + 1);
        let t2 = hex.get_char(i + 2);
        let t3 = hex.get_char(i + 3);
        let t4 = hex.get_char(i + 4);
        let t5 = hex.get_char(i + 5);
        proof {
            assert(hex@.skip(i as int)[0] == hex@[i as int]);
            assert(hex@.skip(i as int)[1] == hex@[i as int + 1]);
            assert(hex@.skip(i as int)[2] == hex@[i as int + 2]);
            assert(hex@.skip(i as int)[3] == hex@[i as int + 3]);
            assert(hex@.skip(i as int)[4] == hex@[i as int + 4]);
            assert(hex@.skip(i as int)[5] == hex@[i as int + 5]);
        }
        (hex_channel_exec(t0, t1), hex_channel_exec(t2, t3), hex_channel_exec(t4, t5))
    } else {
        (0, 0, 0)
    }
}

/// The greatest index at which `c` occurs, or -1.
pub open spec fn last_index_of(s: Seq<char>, c: char) -> int
    decreases s.len(),
{
    if s.len() == 0 {
        -1
    } else if s.last() == c {
        s.len() - 1
    } else {
        last_index_of(s.drop_last(), c)
    }
}

pub proof fn lemma_last_index_of(s: Seq<char>, c: char)
    ensures
        -1 <= last_index_of(s, c) < s.len(),
        last_index_of(s, c) >= 0 ==> s[last_index_of(s, c)] == c,
        forall|j: int| last_index_of(s, c) < j < s.len() ==> s[j] != c,
    decreases s.len(),
{
    if s.len() > 0 {
        lemma_last_index_of(s.drop_last(), c);
        if s.last() != c {
            assert forall|j: int| last_index_of(s, c) < j < s.len() implies s[j] != c by {
                if j < s.len() - 1 {
                    assert(s.drop_last()[j] == s[j]);
                }
            }
        }
    }
}

/// ASCII lower-casing of a character sequence.
pub open spec fn lower_chars(s: Seq<char>) -> Seq<char> {
    s.map(|i: int, c: char| lower_char(c))
}

/// ASCII lower-casing of one character.
pub open spec fn lower_char(c: char) -> char {
    if 65 <= c as int && c as int <= 90 {
        ((c as u8) + 32) as char
    } else {
        c
    }
}

/// The extension of a path: what follows the last dot of the last
/// component, provided that dot is neither the component's first
/// character (a hidden file) nor missing.
pub open spec fn extension_of(path: Seq<char>) -> Option<Seq<char>> {
    let name = path.subrange(last_index_of(path, '/') + 1, path.len() as int);
    let dot = last_index_of(name, '.');
    if dot <= 0 {
        None
    } else {
        Some(name.subrange(dot + 1, name.len() as int))
    }
}

/// The extensions the watcher treats as likely images.
pub open spec fn likely_image_ext(e: Seq<char>) -> bool {
    ||| e == "png"@
    ||| e == "jpg"@
    ||| e == "jpeg"@
    ||| e == "gif"@
    ||| e == "webp"@
    ||| e == "svg"@
    ||| e == "bmp"@
    ||| e == "ico"@
    ||| e == "tiff"@
}

/// Find the last occurrence of a character, scanning from the end.
pub fn rfind_char(s: &str, c: char) -> (r: Option<usize>)
    ensures
        match r {
            Some(i) => i < s@.len() && last_index_of(s@, c) == i as int,
            None => last_index_of(s@, c) == -1,
        },
{
    let n: usize = s.unicode_len();
    let mut i: usize = n;
    proof {
        assert(s@.subrange(0, n as int) =~= s@);
    }
    while i > 0
        invariant
            n == s@.len(),
            i <= n,
            last_index_of(s@, c) == last_index_of(s@.subrange(0, i as int), c),
        decreases i,
    {
        let ch = s.get_char(i - 1);
        proof {
            assert(s@.subrange(0, i as int).last() == s@[i - 1]);
            assert(s@.subrange(0, i as int).drop_last() =~= s@.subrange(0, i as int - 1));
        }
        if ch == c {
            return Some(i - 1);
        }
        i = i - 1;
    }
    proof {
        assert(s@.subrange(0, 0).len() == 0);
    }
    None
}

/// Case-insensitive comparison of a string against an already-lowercase
/// ASCII pattern.
pub fn eq_lowered(s: &str, pattern: &str) -> (r: bool)
    ensures
        r == (lower_chars(s@) == pattern@),
{
    let n: usize = s.unicode_len();
    let m: usize = pattern.unicode_len();
    if n != m {
        proof {
            assert(lower_chars(s@).len() == s@.len());
        }
        return false;
    }
    let mut i: usize = 0;
    while i < n
        invariant
            n == s@.len(),
            n == pattern@.len(),
            i <= n,
            forall|j: int| 0 <= j < i ==> lower_char(s@[j]) == pattern@[j],
        decreases n - i,
    {
        let c = s.get_char(i);
        let u = c as u32;
        let lowered: char = if 65 <= u && u <= 90 {
            (((c as u8) + 32) as char)
        } else {
            c
        };
        proof {
            assert(lowered == lower_char(s@[i as int]));
        }
        if lowered != pattern.get_char(i) {
            proof {
                assert(lower_chars(s@)[i as int] != pattern@[i as int]);
            }
            return false;
        }
        i = i + 1;
    }
    proof {
        assert(lower_chars(s@) =~= pattern@);
    }
    true
}

/// The cheap pre-filter the file watcher applies before re-probing a
/// changed path: does the extension, compared case-insensitively, look
/// like an image? Never the authority on the format — content sniffing
/// decides that — only a guard against waking the pipeline for
/// unrelated files.
pub fn is_likely_image(path: &str) -> (r: bool)
    ensures
        r == match extension_of(path@) {
            Some(e) => likely_image_ext(lower_chars(e)),
            None => false,
        },
{
    let n: usize = path.unicode_len();
    let start: usize = match rfind_char(path, '/') {
        Some(i) => i + 1,
        None => 0,
    };
    proof {
        lemma_last_index_of(path@, '/');
    }
    let name: &str = path.substring_char(start, n);
    proof {
        assert(name@ =~= path@.subrange(
            last_index_of(path@, '/') + 1,
            path@.len() as int,
        ));
        lemma_last_index_of(name@, '.');
    }
    let dot: Option<usize> = rfind_char(name, '.');
    let name_len: usize = name.unicode_len();
    match dot {
        None => false,
        Some(d) => {
            if d == 0 {
                false
            } else {
                let ext: &str = name.substring_char(d + 1, name_len);
                proof {
                    assert(ext@ =~= name@.subrange(d + 1, name@.len() as int));
                }
                eq_lowered(ext, "png") || eq_lowered(ext, "jpg") || eq_lowered(ext, "jpeg")
                    || eq_lowered(ext, "gif") || eq_lowered(ext, "webp") || eq_lowered(ext, "svg")
                    || eq_lowered(ext, "bmp") || eq_lowered(ext, "ico") || eq_lowered(ext, "tiff")
            }
        },
    }
}

} // verus!
