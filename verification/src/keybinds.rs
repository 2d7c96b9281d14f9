//! Key binding resolution: the actions the viewer can take, the binding
//! table entries, and the pure logic that resolves a key press with its
//! modifiers against the table, with a digit fallback for count prefixes.
//! Keys and modifier states are modeled as the library's own plain data.

use vstd::prelude::*;
use crate::strutil::str_eq_str;
use crate::config::Keybindings;
use crate::utils::{eq_lowered, last_index_of, lower_chars, rfind_char};

verus! {

/// Which input mode a binding applies in.
#[derive(Clone, Copy, Debug, PartialEq, Eq, Structural)]
pub enum BindingMode {
    Global,
    View,
    Grid,
}

/// Everything a key press can do.
#[derive(Clone, Copy, Debug, PartialEq, Eq, Structural)]
pub enum Action {
    Quit,
    NextImage,
    PrevImage,
    NextMark,
    PrevMark,
    FirstImage,
    LastImage,
    NextFrame,
    PrevFrame,
    PanLeft,
    PanRight,
    PanUp,
    PanDown,
    ZoomIn,
    ZoomOut,
    ZoomReset,
    FitToWindow,
    BestFit,
    Cover,
    FitWidth,
    FitHeight,
    ResetView,
    RotateCW,
    RotateCCW,
    FlipHorizontal,
    FlipVertical,
    GridMoveLeft,
    GridMoveRight,
    GridMoveUp,
    GridMoveDown,
    GridMovePageUp,
    GridMovePageDown,
    ToggleGrid,
    ToggleStatusBar,
    ToggleAnimation,
    ToggleSlideshow,
    ToggleMarks,
    UnmarkAll,
    MarkFile,
    RemoveImage,
    ScriptHandlerPrefix,
    FilterMode,
    ToggleAlpha,
    Digit(usize),
}

/// A logical key, modeled as plain data: one of the named keys a binding
/// can use, or a character key.
pub enum KeyCode {
    ArrowLeft,
    ArrowRight,
    ArrowUp,
    ArrowDown,
    Enter,
    Space,
    Backspace,
    Tab,
    Escape,
    Home,
    End,
    PageUp,
    PageDown,
    Character(String),
}

/// The state of the four modifier keys.
#[derive(Clone, Copy, Debug, PartialEq, Eq, Structural)]
pub struct Modifiers {
    pub shift: bool,
    pub ctrl: bool,
    pub alt: bool,
    pub super_key: bool,
}

impl Default for Modifiers {
    /// No modifier held.
    fn default() -> (r: Self)
        ensures
            !r.shift && !r.ctrl && !r.alt && !r.super_key,
    {
        Modifiers { shift: false, ctrl: false, alt: false, super_key: false }
    }
}

/// One entry of the binding table.
pub struct Binding {
    pub key: KeyCode,
    pub mods: Modifiers,
    pub mode: BindingMode,
    pub action: Action,
}

/// Two keys are the same binding target.
pub open spec fn key_eq(a: KeyCode, b: KeyCode) -> bool {
    match (a, b) {
        (KeyCode::Character(x), KeyCode::Character(y)) => x@ == y@,
        (KeyCode::ArrowLeft, KeyCode::ArrowLeft) => true,
        (KeyCode::ArrowRight, KeyCode::ArrowRight) => true,
        (KeyCode::ArrowUp, KeyCode::ArrowUp) => true,
        (KeyCode::ArrowDown, KeyCode::ArrowDown) => true,
        (KeyCode::Enter, KeyCode::Enter) => true,
        (KeyCode::Space, KeyCode::Space) => true,
        (KeyCode::Backspace, KeyCode::Backspace) => true,
        (KeyCode::Tab, KeyCode::Tab) => true,
        (KeyCode::Escape, KeyCode::Escape) => true,
        (KeyCode::Home, KeyCode::Home) => true,
        (KeyCode::End, KeyCode::End) => true,
        (KeyCode::PageUp, KeyCode::PageUp) => true,
        (KeyCode::PageDown, KeyCode::PageDown) => true,
        _ => false,
    }
}

fn key_eq_exec(a: &KeyCode, b: &KeyCode) -> (r: bool)
    ensures
        r == key_eq(*a, *b),
{
    match (a, b) {
        (KeyCode::Character(x), KeyCode::Character(y)) => str_eq_str(x.as_str(), y.as_str()),
        (KeyCode::ArrowLeft, KeyCode::ArrowLeft) => true,
        (KeyCode::ArrowRight, KeyCode::ArrowRight) => true,
        (KeyCode::ArrowUp, KeyCode::ArrowUp) => true,
        (KeyCode::ArrowDown, KeyCode::ArrowDown) => true,
        (KeyCode::Enter, KeyCode::Enter) => true,
        (KeyCode::Space, KeyCode::Space) => true,
        (KeyCode::Backspace, KeyCode::Backspace) => true,
        (KeyCode::Tab, KeyCode::Tab) => true,
        (KeyCode::Escape, KeyCode::Escape) => true,
        (KeyCode::Home, KeyCode::Home) => true,
        (KeyCode::End, KeyCode::End) => true,
        (KeyCode::PageUp, KeyCode::PageUp) => true,
        (KeyCode::PageDown, KeyCode::PageDown) => true,
        _ => false,
    }
}

/// Whether the held modifiers satisfy what a binding requires: every
/// required modifier held and no extra one, except that the shift state
/// is ignored for character keys, whose identity already accounts for it.
pub open spec fn mods_match(current: Modifiers, required: Modifiers, key: KeyCode) -> bool {
    let ignore_shift = key is Character;
    &&& (ignore_shift || current.shift == required.shift)
    &&& current.ctrl == required.ctrl
    &&& current.alt == required.alt
    &&& current.super_key == required.super_key
}

/// Decide whether the held modifiers satisfy a binding's requirement, so
/// a binding with a modifier never fires bare and a bare binding never
/// fires under an unrelated modifier.
pub fn modifiers_match(current: Modifiers, required: Modifiers, key: &KeyCode) -> (r: bool)
    ensures
        r == mods_match(current, required, *key),
{
    let ignore_shift = match key {
        KeyCode::Character(_) => true,
        _ => false,
    };
    let shift_ok = ignore_shift || current.shift == required.shift;
    shift_ok && current.ctrl == required.ctrl && current.alt == required.alt && current.super_key
        == required.super_key
}

/// A binding fires for this key press in this mode.
pub open spec fn binding_fires(b: Binding, key: KeyCode, mods: Modifiers, mode: BindingMode) -> bool {
    &&& key_eq(b.key, key)
    &&& mods_match(mods, b.mods, b.key)
    &&& (b.mode == mode || b.mode is Global)
}

/// The action of the first binding in the table that fires, if any.
pub open spec fn first_firing(s: Seq<Binding>, key: KeyCode, mods: Modifiers, mode: BindingMode) -> Option<Action>
    decreases s.len(),
{
    if s.len() == 0 {
        None
    } else if binding_fires(s[0], key, mods, mode) {
        Some(s[0].action)
    } else {
        first_firing(s.drop_first(), key, mods, mode)
    }
}

/// The numeric value of a run of decimal digits, if every character is
/// one and the value fits the machine word.
pub open spec fn digits_value(s: Seq<char>, acc: int) -> Option<int>
    decreases s.len(),
{
    if acc > usize::MAX as int {
        None
    } else if s.len() == 0 {
        Some(acc)
    } else if 48 <= s[0] as int && s[0] as int <= 57 {
        digits_value(s.drop_first(), acc * 10 + (s[0] as int - 48))
    } else {
        None
    }
}

/// The count-prefix fallback: a character key that parses as a number,
/// pressed without a functional modifier, counts as that digit action.
pub open spec fn digit_fallback(key: KeyCode, mods: Modifiers) -> Option<Action> {
    if mods.ctrl || mods.alt || mods.super_key {
        None
    } else {
        match key {
            KeyCode::Character(c) => match digits_value(c@, 0) {
                Some(v) => if c@.len() > 0 {
                    Some(Action::Digit(v as usize))
                } else {
                    None
                },
                None => None,
            },
            _ => None,
        }
    }
}

/// Parse a character key as a nonnegative number.
fn parse_digits(s: &str) -> (r: Option<usize>)
    ensures
        match r {
            Some(v) => s@.len() > 0 && digits_value(s@, 0) == Some(v as int),
            None => s@.len() == 0 || digits_value(s@, 0) is None,
        },
{
    let n: usize = s.unicode_len();
    if n == 0 {
        return None;
    }
    let mut acc: usize = 0;
    let mut i: usize = 0;
    proof {
        assert(s@.skip(0) =~= s@);
    }
    while i < n
        invariant
            n == s@.len(),
            i <= n,
            digits_value(s@, 0) == digits_value(s@.skip(i as int), acc as int),
        decreases n - i,
    {
        let c = s.get_char(i);
        let u = c as u32;
        proof {
            assert(s@.skip(i as int)[0] == s@[i as int]);
        }
        if u < 48 || 57 < u {
            return None;
        }
        let d: usize = (u - 48) as usize;
        let next = match acc.checked_mul(10) {
            Some(t) => t.checked_add(d),
            None => None,
        };
        match next {
            Some(t) => {
                proof {
                    assert(s@.skip(i as int).drop_first() =~= s@.skip(i as int + 1));
                }
                acc = t;
            },
            None => {
                proof {
                    assert((acc as int) * 10 + d > usize::MAX as int);
                    assert(s@.skip(i as int).drop_first() =~= s@.skip(i as int + 1));
                    lemma_digits_value_overflow(s@.skip(i as int + 1), (acc as int) * 10 + d);
                }
                return None;
            },
        }
        i = i + 1;
    }
    proof {
        assert(s@.skip(n as int).len() == 0);
    }
    Some(acc)
}

/// Once the accumulator is past the machine word, the parse stays failed.
proof fn lemma_digits_value_overflow(s: Seq<char>, acc: int)
    requires
        acc > usize::MAX as int,
    ensures
        digits_value(s, acc) is None,
{
}

/// The input mode a key press resolves under.
pub open spec fn mode_of(is_grid: bool) -> BindingMode {
    if is_grid {
        BindingMode::Grid
    } else {
        BindingMode::View
    }
}

/// Resolve a key press against the binding table: the first binding that
/// fires in the current mode (or globally) wins; otherwise, without a
/// functional modifier, a numeric character key counts as a digit prefix.
pub fn resolve(key: &KeyCode, bindings: &Vec<Binding>, current_mods: Modifiers, is_grid: bool) -> (r:
    Option<Action>)
    ensures
        r == match first_firing(bindings@, *key, current_mods, mode_of(is_grid)) {
            Some(a) => Some(a),
            None => digit_fallback(*key, current_mods),
        },
{
    let current_mode = if is_grid {
        BindingMode::Grid
    } else {
        BindingMode::View
    };
    let n = bindings.len();
    let mut i: usize = 0;
    proof {
        assert(bindings@.skip(0) =~= bindings@);
    }
    while i < n
        invariant
            n == bindings@.len(),
            i <= n,
            current_mode == mode_of(is_grid),
            first_firing(bindings@, *key, current_mods, mode_of(is_grid)) == first_firing(
                bindings@.skip(i as int),
                *key,
                current_mods,
                mode_of(is_grid),
            ),
        decreases n - i,
    {
        let b = &bindings[i];
        proof {
            assert(bindings@.skip(i as int)[0] == bindings@[i as int]);
            assert(bindings@.skip(i as int).drop_first() =~= bindings@.skip(i as int + 1));
        }
        let fires = key_eq_exec(&b.key, key) && modifiers_match(current_mods, b.mods, &b.key) && (
        matches!(b.mode, BindingMode::Global) || b.mode == current_mode);
        if fires {
            return Some(b.action);
        }
        i = i + 1;
    }
    proof {
        assert(bindings@.skip(n as int).len() == 0);
    }
    if current_mods.ctrl || current_mods.alt || current_mods.super_key {
        return None;
    }
    match key {
        KeyCode::Character(c) => {
            match parse_digits(c.as_str()) {
                Some(v) => Some(Action::Digit(v)),
                None => None,
            }
        },
        _ => None,
    }
}

/// No modifier.
pub open spec fn empty_mods() -> Modifiers {
    Modifiers { shift: false, ctrl: false, alt: false, super_key: false }
}

/// One modifier name folded into the state; an unknown or empty segment
/// changes nothing.
pub open spec fn seg_applied(m: Modifiers, seg: Seq<char>) -> Modifiers {
    let l = lower_chars(seg);
    if l == "ctrl"@ || l == "control"@ {
        Modifiers { ctrl: true, ..m }
    } else if l == "shift"@ {
        Modifiers { shift: true, ..m }
    } else if l == "alt"@ {
        Modifiers { alt: true, ..m }
    } else if l == "super"@ || l == "meta"@ {
        Modifiers { super_key: true, ..m }
    } else {
        m
    }
}

/// Fold the `+`-separated modifier names of `p` into the state, with
/// `seg` the segment read so far.
pub open spec fn mods_scan(p: Seq<char>, seg: Seq<char>, m: Modifiers) -> Modifiers
    decreases p.len(),
{
    if p.len() == 0 {
        seg_applied(m, seg)
    } else if p[0] == '+' {
        mods_scan(p.drop_first(), Seq::empty(), seg_applied(m, seg))
    } else {
        mods_scan(p.drop_first(), seg.push(p[0]), m)
    }
}

/// The modifiers an (optionally empty) modifier part names.
pub open spec fn mods_of(p: Seq<char>) -> Modifiers {
    if p.len() == 0 {
        empty_mods()
    } else {
        mods_scan(p, Seq::empty(), empty_mods())
    }
}

/// How a binding string splits into its modifier part and its key part:
/// a lone `+` is all key; a string ending in `++` binds the `+` key under
/// the preceding modifiers; otherwise the split is at the last `+`, or
/// there are no modifiers.
pub open spec fn split_binding(s: Seq<char>) -> (Seq<char>, Seq<char>) {
    if s.len() == 1 && s[0] == '+' {
        (Seq::empty(), s)
    } else if s.len() >= 2 && s[s.len() - 1] == '+' && s[s.len() - 2] == '+' {
        (s.subrange(0, s.len() - 1), s.subrange(s.len() - 1, s.len() as int))
    } else {
        let i = last_index_of(s, '+');
        if i >= 0 {
            (s.subrange(0, i), s.subrange(i + 1, s.len() as int))
        } else {
            (Seq::empty(), s)
        }
    }
}

/// The named key a key part spells, if it is one of the named keys.
pub open spec fn named_key_of(k: Seq<char>) -> Option<KeyCode> {
    if k == "Left"@ {
        Some(KeyCode::ArrowLeft)
    } else if k == "Right"@ {
        Some(KeyCode::ArrowRight)
    } else if k == "Up"@ {
        Some(KeyCode::ArrowUp)
    } else if k == "Down"@ {
        Some(KeyCode::ArrowDown)
    } else if k == "Enter"@ || k == "Return"@ {
        Some(KeyCode::Enter)
    } else if k == "Space"@ {
        Some(KeyCode::Space)
    } else if k == "Backspace"@ {
        Some(KeyCode::Backspace)
    } else if k == "Tab"@ {
        Some(KeyCode::Tab)
    } else if k == "Escape"@ || k == "Esc"@ {
        Some(KeyCode::Escape)
    } else if k == "Home"@ {
        Some(KeyCode::Home)
    } else if k == "End"@ {
        Some(KeyCode::End)
    } else if k == "PageUp"@ {
        Some(KeyCode::PageUp)
    } else if k == "PageDown"@ {
        Some(KeyCode::PageDown)
    } else {
        None
    }
}

/// Whether `r` is the key the key part parses to: a named key by its
/// name, any other single character as a character key, and nothing
/// else.
pub open spec fn key_parses_to(k: Seq<char>, r: Option<KeyCode>) -> bool {
    match named_key_of(k) {
        Some(code) => r == Some(code),
        None => if k.len() == 1 {
            match r {
                Some(KeyCode::Character(c)) => c@ == k,
                _ => false,
            }
        } else {
            r is None
        },
    }
}

/// Fold one modifier segment into the state.
fn apply_segment(m: Modifiers, seg: &str) -> (r: Modifiers)
    ensures
        r == seg_applied(m, seg@),
{
    if eq_lowered(seg, "ctrl") || eq_lowered(seg, "control") {
        Modifiers { ctrl: true, ..m }
    } else if eq_lowered(seg, "shift") {
        Modifiers { shift: true, ..m }
    } else if eq_lowered(seg, "alt") {
        Modifiers { alt: true, ..m }
    } else if eq_lowered(seg, "super") || eq_lowered(seg, "meta") {
        Modifiers { super_key: true, ..m }
    } else {
        m
    }
}

/// Parse the `+`-separated modifier names of a modifier part.
fn parse_mods(p: &str) -> (r: Modifiers)
    ensures
        r == mods_of(p@),
{
    let n: usize = p.unicode_len();
    if n == 0 {
        return Modifiers::default();
    }
    let mut acc = Modifiers::default();
    let mut seg_start: usize = 0;
    let mut i: usize = 0;
    proof {
        assert(p@.skip(0) =~= p@);
        assert(p@.subrange(0, 0) =~= Seq::<char>::empty());
    }
    while i < n
        invariant
            n == p@.len(),
            0 < n,
            seg_start <= i,
            i <= n,
            mods_of(p@) == mods_scan(p@.skip(i as int), p@.subrange(seg_start as int, i as int), acc),
        decreases n - i,
    {
        let c = p.get_char(i);
        proof {
            assert(p@.skip(i as int)[0] == p@[i as int]);
            assert(p@.skip(i as int).drop_first() =~= p@.skip(i as int + 1));
        }
        if c == '+' {
            let seg = p.substring_char(seg_start, i);
            proof {
                assert(seg@ =~= p@.subrange(seg_start as int, i as int));
            }
            acc = apply_segment(acc, seg);
            seg_start = i + 1;
            proof {
                assert(p@.subrange(seg_start as int, i as int + 1) =~= Seq::<char>::empty());
            }
        } else {
            proof {
                assert(p@.subrange(seg_start as int, i as int + 1) =~= p@.subrange(
                    seg_start as int,
                    i as int,
                ).push(p@[i as int]));
            }
        }
        i = i + 1;
    }
    let seg = p.substring_char(seg_start, n);
    proof {
        assert(seg@ =~= p@.subrange(seg_start as int, n as int));
        assert(p@.skip(n as int).len() == 0);
    }
    apply_segment(acc, seg)
}

/// Parse the key part into a key.
fn parse_key_part(k: &str) -> (r: Option<KeyCode>)
    ensures
        key_parses_to(k@, r),
{
    if str_eq_str(k, "Left") {
        Some(KeyCode::ArrowLeft)
    } else if str_eq_str(k, "Right") {
        Some(KeyCode::ArrowRight)
    } else if str_eq_str(k, "Up") {
        Some(KeyCode::ArrowUp)
    } else if str_eq_str(k, "Down") {
        Some(KeyCode::ArrowDown)
    } else if str_eq_str(k, "Enter") || str_eq_str(k, "Return") {
        Some(KeyCode::Enter)
    } else if str_eq_str(k, "Space") {
        Some(KeyCode::Space)
    } else if str_eq_str(k, "Backspace") {
        Some(KeyCode::Backspace)
    } else if str_eq_str(k, "Tab") {
        Some(KeyCode::Tab)
    } else if str_eq_str(k, "Escape") || str_eq_str(k, "Esc") {
        Some(KeyCode::Escape)
    } else if str_eq_str(k, "Home") {
        Some(KeyCode::Home)
    } else if str_eq_str(k, "End") {
        Some(KeyCode::End)
    } else if str_eq_str(k, "PageUp") {
        Some(KeyCode::PageUp)
    } else if str_eq_str(k, "PageDown") {
        Some(KeyCode::PageDown)
    } else if k.unicode_len() == 1 {
        Some(KeyCode::Character(k.to_owned()))
    } else {
        None
    }
}

/// Parse one configured binding string, such as a bare key name or a
/// `+`-joined run of modifier names ending in a key: the key and the
/// modifier set it is bound under, or nothing for an unknown key.
pub fn parse_keybinding(s: &str) -> (r: Option<(KeyCode, Modifiers)>)
    ensures
        match r {
            None => key_parses_to(split_binding(s@).1, None),
            Some((k, m)) => key_parses_to(split_binding(s@).1, Some(k)) && m == mods_of(
                split_binding(s@).0,
            ),
        },
{
    let n: usize = s.unicode_len();
    let lone_plus = n == 1 && s.get_char(0) == '+';
    let double_plus = !lone_plus && n >= 2 && s.get_char(n - 1) == '+' && s.get_char(n - 2) == '+';
    let (mods_part, key_part): (&str, &str) = if lone_plus {
        (s.substring_char(0, 0), s)
    } else if double_plus {
        (s.substring_char(0, n - 1), s.substring_char(n - 1, n))
    } else {
        match rfind_char(s, '+') {
            Some(i) => (s.substring_char(0, i), s.substring_char(i + 1, n)),
            None => (s.substring_char(0, 0), s),
        }
    };
    proof {
        if lone_plus {
            assert(s@.subrange(0, 0) =~= Seq::<char>::empty());
            assert(mods_part@ =~= split_binding(s@).0);
            assert(key_part@ =~= split_binding(s@).1);
        } else if double_plus {
            assert(mods_part@ =~= split_binding(s@).0);
            assert(key_part@ =~= split_binding(s@).1);
        } else {
            assert(mods_part@ =~= split_binding(s@).0);
            assert(key_part@ =~= split_binding(s@).1);
        }
    }
    let mods = parse_mods(mods_part);
    match parse_key_part(key_part) {
        Some(key) => Some((key, mods)),
        None => None,
    }
}

/// Whether a configured binding string parses to a key.
pub open spec fn parse_succeeds(s: String) -> bool {
    let kp = split_binding(s@).1;
    named_key_of(kp) is Some || kp.len() == 1
}

/// The configured strings of a list that parse, in order.
pub open spec fn parsing_entries(keys: Seq<String>) -> Seq<String>
    decreases keys.len(),
{
    if keys.len() == 0 {
        Seq::empty()
    } else {
        let rest = parsing_entries(keys.drop_last());
        if parse_succeeds(keys.last()) {
            rest.push(keys.last())
        } else {
            rest
        }
    }
}

/// The binding at a table position was produced by parsing one string of
/// the list, bound under this mode and action.
pub open spec fn bound_from(b: Binding, s: String, mode: BindingMode, action: Action) -> bool {
    &&& b.mode == mode
    &&& b.action == action
    &&& key_parses_to(split_binding(s@).1, Some(b.key))
    &&& b.mods == mods_of(split_binding(s@).0)
}

/// Append one configured list to the table: one binding per string that
/// parses, in order, under the given mode and action; strings that do
/// not parse are skipped and the table so far is untouched.
pub fn add_bindings(out: &mut Vec<Binding>, keys: &Vec<String>, mode: BindingMode, action: Action)
    ensures
        final(out)@.len() == old(out)@.len() + parsing_entries(keys@).len(),
        forall|j: int| 0 <= j < old(out)@.len() ==> final(out)@[j] == old(out)@[j],
        forall|j: int|
            0 <= j < parsing_entries(keys@).len() ==> bound_from(
                #[trigger] final(out)@[old(out)@.len() + j],
                parsing_entries(keys@)[j],
                mode,
                action,
            ),
{
    let n = keys.len();
    let base = out.len();
    let mut i: usize = 0;
    while i < n
        invariant
            n == keys@.len(),
            i <= n,
            base == old(out)@.len(),
            out@.len() == base + parsing_entries(keys@.subrange(0, i as int)).len(),
            forall|j: int| 0 <= j < base ==> out@[j] == old(out)@[j],
            forall|j: int|
                0 <= j < parsing_entries(keys@.subrange(0, i as int)).len() ==> bound_from(
                    #[trigger] out@[base + j],
                    parsing_entries(keys@.subrange(0, i as int))[j],
                    mode,
                    action,
                ),
        decreases n - i,
    {
        proof {
            assert(keys@.subrange(0, i + 1).drop_last() =~= keys@.subrange(0, i as int));
            assert(keys@.subrange(0, i + 1).last() == keys@[i as int]);
        }
        match parse_keybinding(keys[i].as_str()) {
            Some((key, mods)) => {
                out.push(Binding { key, mods, mode, action });
                proof {
                    assert(parse_succeeds(keys@[i as int]));
                }
            },
            None => {
                proof {
                    assert(!parse_succeeds(keys@[i as int]));
                }
            },
        }
        i = i + 1;
    }
    proof {
        assert(keys@.subrange(0, n as int) =~= keys@);
    }
}

/// One configured list as planned table entries: each string that
/// parses, in order, tagged with the list's mode and action.
pub open spec fn seg_spec(keys: Seq<String>, mode: BindingMode, action: Action) -> Seq<
    (String, BindingMode, Action),
> {
    parsing_entries(keys).map(|i: int, s: String| (s, mode, action))
}

/// A built table realizes a planned one exactly: same length, and entry
/// for entry the binding was parsed from the planned string under the
/// planned mode and action.
pub open spec fn matches_plan(bs: Seq<Binding>, es: Seq<(String, BindingMode, Action)>) -> bool {
    &&& bs.len() == es.len()
    &&& forall|j: int|
        0 <= j < bs.len() ==> bound_from(#[trigger] bs[j], es[j].0, es[j].1, es[j].2)
}

/// The table segment the configuration contributes at position `t` of
/// the build order.
pub open spec fn segment_of(k: Keybindings, t: int) -> Seq<(String, BindingMode, Action)> {
    if t == 0 {
        seg_spec(k.quit.0@, BindingMode::Global, Action::Quit)
    } else if t == 1 {
        seg_spec(k.handler_prefix.0@, BindingMode::Global, Action::ScriptHandlerPrefix)
    } else if t == 2 {
        seg_spec(k.toggle_status_bar.0@, BindingMode::Global, Action::ToggleStatusBar)
    } else if t == 3 {
        seg_spec(k.toggle_animation.0@, BindingMode::Global, Action::ToggleAnimation)
    } else if t == 4 {
        seg_spec(k.toggle_slideshow.0@, BindingMode::Global, Action::ToggleSlideshow)
    } else if t == 5 {
        seg_spec(k.image_next.0@, BindingMode::Global, Action::NextImage)
    } else if t == 6 {
        seg_spec(k.image_previous.0@, BindingMode::Global, Action::PrevImage)
    } else if t == 7 {
        seg_spec(k.next_mark.0@, BindingMode::Global, Action::NextMark)
    } else if t == 8 {
        seg_spec(k.prev_mark.0@, BindingMode::Global, Action::PrevMark)
    } else if t == 9 {
        seg_spec(k.toggle_grid.0@, BindingMode::Global, Action::ToggleGrid)
    } else if t == 10 {
        seg_spec(k.filter_mode.0@, BindingMode::Global, Action::FilterMode)
    } else if t == 11 {
        seg_spec(k.mark_file.0@, BindingMode::Global, Action::MarkFile)
    } else if t == 12 {
        seg_spec(k.unmark_all.0@, BindingMode::Global, Action::UnmarkAll)
    } else if t == 13 {
        seg_spec(k.remove_image.0@, BindingMode::Global, Action::RemoveImage)
    } else if t == 14 {
        seg_spec(k.mark_all.0@, BindingMode::Global, Action::ToggleMarks)
    } else if t == 15 {
        seg_spec(k.first_image.0@, BindingMode::Global, Action::FirstImage)
    } else if t == 16 {
        seg_spec(k.last_image.0@, BindingMode::Global, Action::LastImage)
    } else if t == 17 {
        seg_spec(k.zoom_in.0@, BindingMode::View, Action::ZoomIn)
    } else if t == 18 {
        seg_spec(k.zoom_out.0@, BindingMode::View, Action::ZoomOut)
    } else if t == 19 {
        seg_spec(k.zoom_reset.0@, BindingMode::View, Action::ZoomReset)
    } else if t == 20 {
        seg_spec(k.fit_best.0@, BindingMode::View, Action::FitToWindow)
    } else if t == 21 {
        seg_spec(k.fit_best_no_upscale.0@, BindingMode::View, Action::BestFit)
    } else if t == 22 {
        seg_spec(k.fit_cover.0@, BindingMode::View, Action::Cover)
    } else if t == 23 {
        seg_spec(k.fit_width.0@, BindingMode::View, Action::FitWidth)
    } else if t == 24 {
        seg_spec(k.fit_height.0@, BindingMode::View, Action::FitHeight)
    } else if t == 25 {
        seg_spec(k.view_reset_pan.0@, BindingMode::View, Action::ResetView)
    } else if t == 26 {
        seg_spec(k.image_flip_horizontal.0@, BindingMode::View, Action::FlipHorizontal)
    } else if t == 27 {
        seg_spec(k.image_flip_vertical.0@, BindingMode::View, Action::FlipVertical)
    } else if t == 28 {
        seg_spec(k.rotate_cw.0@, BindingMode::View, Action::RotateCW)
    } else if t == 29 {
        seg_spec(k.rotate_ccw.0@, BindingMode::View, Action::RotateCCW)
    } else if t == 30 {
        seg_spec(k.view_pan_left.0@, BindingMode::View, Action::PanLeft)
    } else if t == 31 {
        seg_spec(k.view_pan_right.0@, BindingMode::View, Action::PanRight)
    } else if t == 32 {
        seg_spec(k.view_pan_up.0@, BindingMode::View, Action::PanUp)
    } else if t == 33 {
        seg_spec(k.view_pan_down.0@, BindingMode::View, Action::PanDown)
    } else if t == 34 {
        seg_spec(k.view_pan_left.0@, BindingMode::Grid, Action::GridMoveLeft)
    } else if t == 35 {
        seg_spec(k.view_pan_right.0@, BindingMode::Grid, Action::GridMoveRight)
    } else if t == 36 {
        seg_spec(k.view_pan_up.0@, BindingMode::Grid, Action::GridMoveUp)
    } else if t == 37 {
        seg_spec(k.view_pan_down.0@, BindingMode::Grid, Action::GridMoveDown)
    } else if t == 38 {
        seg_spec(k.grid_page_up.0@, BindingMode::Grid, Action::GridMovePageUp)
    } else if t == 39 {
        seg_spec(k.grid_page_down.0@, BindingMode::Grid, Action::GridMovePageDown)
    } else if t == 40 {
        seg_spec(k.toggle_alpha.0@, BindingMode::Global, Action::ToggleAlpha)
    } else if t == 41 {
        seg_spec(k.next_frame.0@, BindingMode::View, Action::NextFrame)
    } else if t == 42 {
        seg_spec(k.prev_frame.0@, BindingMode::View, Action::PrevFrame)
    } else {
        Seq::empty()
    }
}

/// The planned table up to build position `t`.
pub open spec fn planned_upto(k: Keybindings, t: int) -> Seq<(String, BindingMode, Action)>
    decreases t,
{
    if t <= 0 {
        Seq::empty()
    } else {
        planned_upto(k, t - 1) + segment_of(k, t - 1)
    }
}

/// The whole planned binding table of a configuration: the concatenation
/// of every list's parsing entries, in the fixed build order. Pan keys
/// contribute twice: as panning in single view and as movement in the
/// grid.
pub open spec fn planned_table(k: Keybindings) -> Seq<(String, BindingMode, Action)> {
    planned_upto(k, 43)
}

/// Extending a realized plan by one list's appended bindings realizes
/// the extended plan.
proof fn lemma_plan_extend(
    prev: Seq<Binding>,
    cur: Seq<Binding>,
    done: Seq<(String, BindingMode, Action)>,
    keys: Seq<String>,
    mode: BindingMode,
    action: Action,
)
    requires
        matches_plan(prev, done),
        cur.len() == prev.len() + parsing_entries(keys).len(),
        forall|j: int| 0 <= j < prev.len() ==> cur[j] == prev[j],
        forall|j: int|
            0 <= j < parsing_entries(keys).len() ==> bound_from(
                #[trigger] cur[prev.len() + j],
                parsing_entries(keys)[j],
                mode,
                action,
            ),
    ensures
        matches_plan(cur, done + seg_spec(keys, mode, action)),
{
    let seg = seg_spec(keys, mode, action);
    let plan = done + seg;
    assert(cur.len() == plan.len());
    assert forall|j: int| 0 <= j < cur.len() implies bound_from(
        #[trigger] cur[j],
        plan[j].0,
        plan[j].1,
        plan[j].2,
    ) by {
        if j < done.len() {
            assert(cur[j] == prev[j]);
            assert(bound_from(prev[j], done[j].0, done[j].1, done[j].2));
            assert(plan[j] == done[j]);
        } else {
            let p = j - done.len();
            assert(cur[prev.len() + p] == cur[j]);
            assert(bound_from(cur[prev.len() + p], parsing_entries(keys)[p], mode, action));
            assert(plan[j] == seg[p]);
            assert(seg[p] == (parsing_entries(keys)[p], mode, action));
        }
    }
}

/// Build the full binding table from the configured lists: exactly the
/// planned table — each list contributes one binding per string that
/// parses, in order, under its mode and action, and nothing else. Two
/// builds of the same configuration realize the same plan.
pub fn get_all_bindings(k: &Keybindings) -> (r: Vec<Binding>)
    ensures
        matches_plan(r@, planned_table(*k)),
{
    let mut r: Vec<Binding> = Vec::new();
    proof {
        assert(matches_plan(r@, planned_upto(*k, 0)));
    }
    let ghost prev = r@;
    add_bindings(&mut r, &k.quit.0, BindingMode::Global, Action::Quit);
    proof {
        lemma_plan_extend(prev, r@, planned_upto(*k, 0), k.quit.0@, BindingMode::Global, Action::Quit);
        assert(planned_upto(*k, 1) == planned_upto(*k, 0) + segment_of(*k, 0));
        assert(matches_plan(r@, planned_upto(*k, 1)));
    }
    let ghost prev = r@;
    add_bindings(&mut r, &k.handler_prefix.0, BindingMode::Global, Action::ScriptHandlerPrefix);
    proof {
        lemma_plan_extend(prev, r@, planned_upto(*k, 1), k.handler_prefix.0@, BindingMode::Global, Action::ScriptHandlerPrefix);
        assert(planned_upto(*k, 2) == planned_upto(*k, 1) + segment_of(*k, 1));
        assert(matches_plan(r@, planned_upto(*k, 2)));
    }
    let ghost prev = r@;
    add_bindings(&mut r, &k.toggle_status_bar.0, BindingMode::Global, Action::ToggleStatusBar);
    proof {
        lemma_plan_extend(prev, r@, planned_upto(*k, 2), k.toggle_status_bar.0@, BindingMode::Global, Action::ToggleStatusBar);
        assert(planned_upto(*k, 3) == planned_upto(*k, 2) + segment_of(*k, 2));
        assert(matches_plan(r@, planned_upto(*k, 3)));
    }
    let ghost prev = r@;
    add_bindings(&mut r, &k.toggle_animation.0, BindingMode::Global, Action::ToggleAnimation);
    proof {
        lemma_plan_extend(prev, r@, planned_upto(*k, 3), k.toggle_animation.0@, BindingMode::Global, Action::ToggleAnimation);
        assert(planned_upto(*k, 4) == planned_upto(*k, 3) + segment_of(*k, 3));
        assert(matches_plan(r@, planned_upto(*k, 4)));
    }
    let ghost prev = r@;
    add_bindings(&mut r, &k.toggle_slideshow.0, BindingMode::Global, Action::ToggleSlideshow);
    proof {
        lemma_plan_extend(prev, r@, planned_upto(*k, 4), k.toggle_slideshow.0@, BindingMode::Global, Action::ToggleSlideshow);
        assert(planned_upto(*k, 5) == planned_upto(*k, 4) + segment_of(*k, 4));
        assert(matches_plan(r@, planned_upto(*k, 5)));
    }
    let ghost prev = r@;
    add_bindings(&mut r, &k.image_next.0, BindingMode::Global, Action::NextImage);
    proof {
        lemma_plan_extend(prev, r@, planned_upto(*k, 5), k.image_next.0@, BindingMode::Global, Action::NextImage);
        assert(planned_upto(*k, 6) == planned_upto(*k, 5) + segment_of(*k, 5));
        assert(matches_plan(r@, planned_upto(*k, 6)));
    }
    let ghost prev = r@;
    add_bindings(&mut r, &k.image_previous.0, BindingMode::Global, Action::PrevImage);
    proof {
        lemma_plan_extend(prev, r@, planned_upto(*k, 6), k.image_previous.0@, BindingMode::Global, Action::PrevImage);
        assert(planned_upto(*k, 7) == planned_upto(*k, 6) + segment_of(*k, 6));
        assert(matches_plan(r@, planned_upto(*k, 7)));
    }
    let ghost prev = r@;
    add_bindings(&mut r, &k.next_mark.0, BindingMode::Global, Action::NextMark);
    proof {
        lemma_plan_extend(prev, r@, planned_upto(*k, 7), k.next_mark.0@, BindingMode::Global, Action::NextMark);
        assert(planned_upto(*k, 8) == planned_upto(*k, 7) + segment_of(*k, 7));
        assert(matches_plan(r@, planned_upto(*k, 8)));
    }
    let ghost prev = r@;
    add_bindings(&mut r, &k.prev_mark.0, BindingMode::Global, Action::PrevMark);
    proof {
        lemma_plan_extend(prev, r@, planned_upto(*k, 8), k.prev_mark.0@, BindingMode::Global, Action::PrevMark);
        assert(planned_upto(*k, 9) == planned_upto(*k, 8) + segment_of(*k, 8));
        assert(matches_plan(r@, planned_upto(*k, 9)));
    }
    let ghost prev = r@;
    add_bindings(&mut r, &k.toggle_grid.0, BindingMode::Global, Action::ToggleGrid);
    proof {
        lemma_plan_extend(prev, r@, planned_upto(*k, 9), k.toggle_grid.0@, BindingMode::Global, Action::ToggleGrid);
        assert(planned_upto(*k, 10) == planned_upto(*k, 9) + segment_of(*k, 9));
        assert(matches_plan(r@, planned_upto(*k, 10)));
    }
    let ghost prev = r@;
    add_bindings(&mut r, &k.filter_mode.0, BindingMode::Global, Action::FilterMode);
    proof {
        lemma_plan_extend(prev, r@, planned_upto(*k, 10), k.filter_mode.0@, BindingMode::Global, Action::FilterMode);
        assert(planned_upto(*k, 11) == planned_upto(*k, 10) + segment_of(*k, 10));
        assert(matches_plan(r@, planned_upto(*k, 11)));
    }
    let ghost prev = r@;
    add_bindings(&mut r, &k.mark_file.0, BindingMode::Global, Action::MarkFile);
    proof {
        lemma_plan_extend(prev, r@, planned_upto(*k, 11), k.mark_file.0@, BindingMode::Global, Action::MarkFile);
        assert(planned_upto(*k, 12) == planned_upto(*k, 11) + segment_of(*k, 11));
        assert(matches_plan(r@, planned_upto(*k, 12)));
    }
    let ghost prev = r@;
    add_bindings(&mut r, &k.unmark_all.0, BindingMode::Global, Action::UnmarkAll);
    proof {
        lemma_plan_extend(prev, r@, planned_upto(*k, 12), k.unmark_all.0@, BindingMode::Global, Action::UnmarkAll);
        assert(planned_upto(*k, 13) == planned_upto(*k, 12) + segment_of(*k, 12));
        assert(matches_plan(r@, planned_upto(*k, 13)));
    }
    let ghost prev = r@;
    add_bindings(&mut r, &k.remove_image.0, BindingMode::Global, Action::RemoveImage);
    proof {
        lemma_plan_extend(prev, r@, planned_upto(*k, 13), k.remove_image.0@, BindingMode::Global, Action::RemoveImage);
        assert(planned_upto(*k, 14) == planned_upto(*k, 13) + segment_of(*k, 13));
        assert(matches_plan(r@, planned_upto(*k, 14)));
    }
    let ghost prev = r@;
    add_bindings(&mut r, &k.mark_all.0, BindingMode::Global, Action::ToggleMarks);
    proof {
        lemma_plan_extend(prev, r@, planned_upto(*k, 14), k.mark_all.0@, BindingMode::Global, Action::ToggleMarks);
        assert(planned_upto(*k, 15) == planned_upto(*k, 14) + segment_of(*k, 14));
        assert(matches_plan(r@, planned_upto(*k, 15)));
    }
    let ghost prev = r@;
    add_bindings(&mut r, &k.first_image.0, BindingMode::Global, Action::FirstImage);
    proof {
        lemma_plan_extend(prev, r@, planned_upto(*k, 15), k.first_image.0@, BindingMode::Global, Action::FirstImage);
        assert(planned_upto(*k, 16) == planned_upto(*k, 15) + segment_of(*k, 15));
        assert(matches_plan(r@, planned_upto(*k, 16)));
    }
    let ghost prev = r@;
    add_bindings(&mut r, &k.last_image.0, BindingMode::Global, Action::LastImage);
    proof {
        lemma_plan_extend(prev, r@, planned_upto(*k, 16), k.last_image.0@, BindingMode::Global, Action::LastImage);
        assert(planned_upto(*k, 17) == planned_upto(*k, 16) + segment_of(*k, 16));
        assert(matches_plan(r@, planned_upto(*k, 17)));
    }
    let ghost prev = r@;
    add_bindings(&mut r, &k.zoom_in.0, BindingMode::View, Action::ZoomIn);
    proof {
        lemma_plan_extend(prev, r@, planned_upto(*k, 17), k.zoom_in.0@, BindingMode::View, Action::ZoomIn);
        assert(planned_upto(*k, 18) == planned_upto(*k, 17) + segment_of(*k, 17));
        assert(matches_plan(r@, planned_upto(*k, 18)));
    }
    let ghost prev = r@;
    add_bindings(&mut r, &k.zoom_out.0, BindingMode::View, Action::ZoomOut);
    proof {
        lemma_plan_extend(prev, r@, planned_upto(*k, 18), k.zoom_out.0@, BindingMode::View, Action::ZoomOut);
        assert(planned_upto(*k, 19) == planned_upto(*k, 18) + segment_of(*k, 18));
        assert(matches_plan(r@, planned_upto(*k, 19)));
    }
    let ghost prev = r@;
    add_bindings(&mut r, &k.zoom_reset.0, BindingMode::View, Action::ZoomReset);
    proof {
        lemma_plan_extend(prev, r@, planned_upto(*k, 19), k.zoom_reset.0@, BindingMode::View, Action::ZoomReset);
        assert(planned_upto(*k, 20) == planned_upto(*k, 19) + segment_of(*k, 19));
        assert(matches_plan(r@, planned_upto(*k, 20)));
    }
    let ghost prev = r@;
    add_bindings(&mut r, &k.fit_best.0, BindingMode::View, Action::FitToWindow);
    proof {
        lemma_plan_extend(prev, r@, planned_upto(*k, 20), k.fit_best.0@, BindingMode::View, Action::FitToWindow);
        assert(planned_upto(*k, 21) == planned_upto(*k, 20) + segment_of(*k, 20));
        assert(matches_plan(r@, planned_upto(*k, 21)));
    }
    let ghost prev = r@;
    add_bindings(&mut r, &k.fit_best_no_upscale.0, BindingMode::View, Action::BestFit);
    proof {
        lemma_plan_extend(prev, r@, planned_upto(*k, 21), k.fit_best_no_upscale.0@, BindingMode::View, Action::BestFit);
        assert(planned_upto(*k, 22) == planned_upto(*k, 21) + segment_of(*k, 21));
        assert(matches_plan(r@, planned_upto(*k, 22)));
    }
    let ghost prev = r@;
    add_bindings(&mut r, &k.fit_cover.0, BindingMode::View, Action::Cover);
    proof {
        lemma_plan_extend(prev, r@, planned_upto(*k, 22), k.fit_cover.0@, BindingMode::View, Action::Cover);
        assert(planned_upto(*k, 23) == planned_upto(*k, 22) + segment_of(*k, 22));
        assert(matches_plan(r@, planned_upto(*k, 23)));
    }
    let ghost prev = r@;
    add_bindings(&mut r, &k.fit_width.0, BindingMode::View, Action::FitWidth);
    proof {
        lemma_plan_extend(prev, r@, planned_upto(*k, 23), k.fit_width.0@, BindingMode::View, Action::FitWidth);
        assert(planned_upto(*k, 24) == planned_upto(*k, 23) + segment_of(*k, 23));
        assert(matches_plan(r@, planned_upto(*k, 24)));
    }
    let ghost prev = r@;
    add_bindings(&mut r, &k.fit_height.0, BindingMode::View, Action::FitHeight);
    proof {
        lemma_plan_extend(prev, r@, planned_upto(*k, 24), k.fit_height.0@, BindingMode::View, Action::FitHeight);
        assert(planned_upto(*k, 25) == planned_upto(*k, 24) + segment_of(*k, 24));
        assert(matches_plan(r@, planned_upto(*k, 25)));
    }
    let ghost prev = r@;
    add_bindings(&mut r, &k.view_reset_pan.0, BindingMode::View, Action::ResetView);
    proof {
        lemma_plan_extend(prev, r@, planned_upto(*k, 25), k.view_reset_pan.0@, BindingMode::View, Action::ResetView);
        assert(planned_upto(*k, 26) == planned_upto(*k, 25) + segment_of(*k, 25));
        assert(matches_plan(r@, planned_upto(*k, 26)));
    }
    let ghost prev = r@;
    add_bindings(&mut r, &k.image_flip_horizontal.0, BindingMode::View, Action::FlipHorizontal);
    proof {
        lemma_plan_extend(prev, r@, planned_upto(*k, 26), k.image_flip_horizontal.0@, BindingMode::View, Action::FlipHorizontal);
        assert(planned_upto(*k, 27) == planned_upto(*k, 26) + segment_of(*k, 26));
        assert(matches_plan(r@, planned_upto(*k, 27)));
    }
    let ghost prev = r@;
    add_bindings(&mut r, &k.image_flip_vertical.0, BindingMode::View, Action::FlipVertical);
    proof {
        lemma_plan_extend(prev, r@, planned_upto(*k, 27), k.image_flip_vertical.0@, BindingMode::View, Action::FlipVertical);
        assert(planned_upto(*k, 28) == planned_upto(*k, 27) + segment_of(*k, 27));
        assert(matches_plan(r@, planned_upto(*k, 28)));
    }
    let ghost prev = r@;
    add_bindings(&mut r, &k.rotate_cw.0, BindingMode::View, Action::RotateCW);
    proof {
        lemma_plan_extend(prev, r@, planned_upto(*k, 28), k.rotate_cw.0@, BindingMode::View, Action::RotateCW);
        assert(planned_upto(*k, 29) == planned_upto(*k, 28) + segment_of(*k, 28));
        assert(matches_plan(r@, planned_upto(*k, 29)));
    }
    let ghost prev = r@;
    add_bindings(&mut r, &k.rotate_ccw.0, BindingMode::View, Action::RotateCCW);
    proof {
        lemma_plan_extend(prev, r@, planned_upto(*k, 29), k.rotate_ccw.0@, BindingMode::View, Action::RotateCCW);
        assert(planned_upto(*k, 30) == planned_upto(*k, 29) + segment_of(*k, 29));
        assert(matches_plan(r@, planned_upto(*k, 30)));
    }
    let ghost prev = r@;
    add_bindings(&mut r, &k.view_pan_left.0, BindingMode::View, Action::PanLeft);
    proof {
        lemma_plan_extend(prev, r@, planned_upto(*k, 30), k.view_pan_left.0@, BindingMode::View, Action::PanLeft);
        assert(planned_upto(*k, 31) == planned_upto(*k, 30) + segment_of(*k, 30));
        assert(matches_plan(r@, planned_upto(*k, 31)));
    }
    let ghost prev = r@;
    add_bindings(&mut r, &k.view_pan_right.0, BindingMode::View, Action::PanRight);
    proof {
        lemma_plan_extend(prev, r@, planned_upto(*k, 31), k.view_pan_right.0@, BindingMode::View, Action::PanRight);
        assert(planned_upto(*k, 32) == planned_upto(*k, 31) + segment_of(*k, 31));
        assert(matches_plan(r@, planned_upto(*k, 32)));
    }
    let ghost prev = r@;
    add_bindings(&mut r, &k.view_pan_up.0, BindingMode::View, Action::PanUp);
    proof {
        lemma_plan_extend(prev, r@, planned_upto(*k, 32), k.view_pan_up.0@, BindingMode::View, Action::PanUp);
        assert(planned_upto(*k, 33) == planned_upto(*k, 32) + segment_of(*k, 32));
        assert(matches_plan(r@, planned_upto(*k, 33)));
    }
    let ghost prev = r@;
    add_bindings(&mut r, &k.view_pan_down.0, BindingMode::View, Action::PanDown);
    proof {
        lemma_plan_extend(prev, r@, planned_upto(*k, 33), k.view_pan_down.0@, BindingMode::View, Action::PanDown);
        assert(planned_upto(*k, 34) == planned_upto(*k, 33) + segment_of(*k, 33));
        assert(matches_plan(r@, planned_upto(*k, 34)));
    }
    let ghost prev = r@;
    add_bindings(&mut r, &k.view_pan_left.0, BindingMode::Grid, Action::GridMoveLeft);
    proof {
        lemma_plan_extend(prev, r@, planned_upto(*k, 34), k.view_pan_left.0@, BindingMode::Grid, Action::GridMoveLeft);
        assert(planned_upto(*k, 35) == planned_upto(*k, 34) + segment_of(*k, 34));
        assert(matches_plan(r@, planned_upto(*k, 35)));
    }
    let ghost prev = r@;
    add_bindings(&mut r, &k.view_pan_right.0, BindingMode::Grid, Action::GridMoveRight);
    proof {
        lemma_plan_extend(prev, r@, planned_upto(*k, 35), k.view_pan_right.0@, BindingMode::Grid, Action::GridMoveRight);
        assert(planned_upto(*k, 36) == planned_upto(*k, 35) + segment_of(*k, 35));
        assert(matches_plan(r@, planned_upto(*k, 36)));
    }
    let ghost prev = r@;
    add_bindings(&mut r, &k.view_pan_up.0, BindingMode::Grid, Action::GridMoveUp);
    proof {
        lemma_plan_extend(prev, r@, planned_upto(*k, 36), k.view_pan_up.0@, BindingMode::Grid, Action::GridMoveUp);
        assert(planned_upto(*k, 37) == planned_upto(*k, 36) + segment_of(*k, 36));
        assert(matches_plan(r@, planned_upto(*k, 37)));
    }
    let ghost prev = r@;
    add_bindings(&mut r, &k.view_pan_down.0, BindingMode::Grid, Action::GridMoveDown);
    proof {
        lemma_plan_extend(prev, r@, planned_upto(*k, 37), k.view_pan_down.0@, BindingMode::Grid, Action::GridMoveDown);
        assert(planned_upto(*k, 38) == planned_upto(*k, 37) + segment_of(*k, 37));
        assert(matches_plan(r@, planned_upto(*k, 38)));
    }
    let ghost prev = r@;
    add_bindings(&mut r, &k.grid_page_up.0, BindingMode::Grid, Action::GridMovePageUp);
    proof {
        lemma_plan_extend(prev, r@, planned_upto(*k, 38), k.grid_page_up.0@, BindingMode::Grid, Action::GridMovePageUp);
        assert(planned_upto(*k, 39) == planned_upto(*k, 38) + segment_of(*k, 38));
        assert(matches_plan(r@, planned_upto(*k, 39)));
    }
    let ghost prev = r@;
    add_bindings(&mut r, &k.grid_page_down.0, BindingMode::Grid, Action::GridMovePageDown);
    proof {
        lemma_plan_extend(prev, r@, planned_upto(*k, 39), k.grid_page_down.0@, BindingMode::Grid, Action::GridMovePageDown);
        assert(planned_upto(*k, 40) == planned_upto(*k, 39) + segment_of(*k, 39));
        assert(matches_plan(r@, planned_upto(*k, 40)));
    }
    let ghost prev = r@;
    add_bindings(&mut r, &k.toggle_alpha.0, BindingMode::Global, Action::ToggleAlpha);
    proof {
        lemma_plan_extend(prev, r@, planned_upto(*k, 40), k.toggle_alpha.0@, BindingMode::Global, Action::ToggleAlpha);
        assert(planned_upto(*k, 41) == planned_upto(*k, 40) + segment_of(*k, 40));
        assert(matches_plan(r@, planned_upto(*k, 41)));
    }
    let ghost prev = r@;
    add_bindings(&mut r, &k.next_frame.0, BindingMode::View, Action::NextFrame);
    proof {
        lemma_plan_extend(prev, r@, planned_upto(*k, 41), k.next_frame.0@, BindingMode::View, Action::NextFrame);
        assert(planned_upto(*k, 42) == planned_upto(*k, 41) + segment_of(*k, 41));
        assert(matches_plan(r@, planned_upto(*k, 42)));
    }
    let ghost prev = r@;
    add_bindings(&mut r, &k.prev_frame.0, BindingMode::View, Action::PrevFrame);
    proof {
        lemma_plan_extend(prev, r@, planned_upto(*k, 42), k.prev_frame.0@, BindingMode::View, Action::PrevFrame);
        assert(planned_upto(*k, 43) == planned_upto(*k, 42) + segment_of(*k, 42));
        assert(matches_plan(r@, planned_upto(*k, 43)));
    }
    r
}

} // verus!
