//! The colour theme: a text file of `key value...` lines read into a
//! `Theme`, with built-in values for whatever the file does not set.

use vstd::prelude::*;

verus! {

broadcast use vstd::string::axiom_spec_iter;

/// The characters that Unicode calls white space, those on which
/// `str::split_whitespace` separates words.
pub open spec fn is_space(c: char) -> bool {
    let u = c as u32;
    ||| 0x09 <= u <= 0x0D
    ||| u == 0x20
    ||| u == 0x85
    ||| u == 0xA0
    ||| u == 0x1680
    ||| 0x2000 <= u <= 0x200A
    ||| u == 0x2028
    ||| u == 0x2029
    ||| u == 0x202F
    ||| u == 0x205F
    ||| u == 0x3000
}

/// The words of `s`: its maximal runs of characters that are not white space,
/// in order.
pub open spec fn words(s: Seq<char>) -> Seq<Seq<char>>
    decreases s.len(),
{
    if s.len() == 0 {
        seq![]
    } else {
        let prev = words(s.drop_last());
        let c = s.last();
        if is_space(c) {
            prev
        } else if s.len() >= 2 && !is_space(s[s.len() - 2]) {
            prev.drop_last().push(prev.last().push(c))
        } else {
            prev.push(seq![c])
        }
    }
}

/// The lines of `s`: the pieces between its newline characters.
pub open spec fn lines(s: Seq<char>) -> Seq<Seq<char>>
    decreases s.len(),
{
    if s.len() == 0 {
        seq![seq![]]
    } else {
        let prev = lines(s.drop_last());
        let c = s.last();
        if c == '\n' {
            prev.push(seq![])
        } else {
            prev.drop_last().push(prev.last().push(c))
        }
    }
}

/// The lines of `s`, each given as its words.
pub open spec fn line_words(s: Seq<char>) -> Seq<Seq<Seq<char>>> {
    lines(s).map_values(|l: Seq<char>| words(l))
}

/// What the last line of `ls` (each line given as its words) that sets `key`
/// gives it: the words after the key. A line sets `key` where it has at least
/// two words and its first word is `key`.
pub open spec fn setting(ls: Seq<Seq<Seq<char>>>, key: Seq<char>) -> Option<Seq<Seq<char>>>
    decreases ls.len(),
{
    if ls.len() == 0 {
        None
    } else {
        let ws = ls.last();
        if ws.len() >= 2 && ws[0] == key {
            Some(ws.drop_first())
        } else {
            setting(ls.drop_last(), key)
        }
    }
}

/// The first word of a setting, if there is one.
pub open spec fn first_word(v: Option<Seq<Seq<char>>>) -> Option<Seq<char>> {
    match v {
        Some(ws) => Some(ws[0]),
        None => None,
    }
}

/// The first word that `ls` sets `key` to, or `default`.
pub open spec fn value_or(ls: Seq<Seq<Seq<char>>>, key: Seq<char>, default: Seq<char>) -> Seq<
    char,
> {
    match setting(ls, key) {
        Some(ws) => ws[0],
        None => default,
    }
}

/// The words of `ws` with one space between each two.
pub open spec fn joined(ws: Seq<Seq<char>>) -> Seq<char>
    decreases ws.len(),
{
    if ws.len() == 0 {
        seq![]
    } else if ws.len() == 1 {
        ws[0]
    } else {
        joined(ws.drop_last()) + seq![' '] + ws.last()
    }
}

/// The decimal digit of `d`, for `d` below ten.
pub open spec fn digit(d: nat) -> char {
    (d + 48) as char
}

/// The key `color<i>` of palette entry `i`, with `i` in decimal, for `i`
/// below sixteen.
pub open spec fn color_key(i: nat) -> Seq<char> {
    if i < 10 {
        "color"@.push(digit(i))
    } else {
        "color"@.push('1').push(digit((i - 10) as nat))
    }
}

/// The palette entries that `ls` sets among `color0` up to `color<n - 1>`,
/// in the order of their numbers; numbers that are not set are skipped.
pub open spec fn found_colors(ls: Seq<Seq<Seq<char>>>, n: nat) -> Seq<Seq<char>>
    decreases n,
{
    if n == 0 {
        seq![]
    } else {
        let prev = found_colors(ls, (n - 1) as nat);
        match setting(ls, color_key((n - 1) as nat)) {
            Some(ws) => prev.push(ws[0]),
            None => prev,
        }
    }
}

/// The palette used where a theme file sets fewer than ten colours.
pub open spec fn fallback_palette() -> Seq<Seq<char>> {
    seq![
        "#9ccfd8"@,
        "#c4a7e7"@,
        "#ebbcba"@,
        "#f6c177"@,
        "#ea9d34"@,
        "#d7827e"@,
        "#907aa9"@,
        "#b4637a"@,
        "#88a096"@,
        "#9bb1d6"@,
        "#c2d1b2"@,
        "#e8d1c5"@,
        "#d4b5d8"@,
        "#adcbe3"@,
        "#e1e1e1"@,
    ]
}

/// The abstract content of a theme.
pub ghost struct ThemeView {
    pub background: Seq<char>,
    pub foreground: Seq<char>,
    pub palette: Seq<Seq<char>>,
    pub font_family: Seq<char>,
    pub font_size: Option<Seq<char>>,
    pub selection_background: Seq<char>,
}

/// The theme that the text `content` describes. Every key takes the value
/// of the last line that sets it, or a built-in one. The palette holds the
/// colours `color0` to `color15` that are set, in order, where there are at
/// least ten of them, and the fallback palette otherwise.
pub open spec fn theme_of(content: Seq<char>) -> ThemeView {
    let ls = line_words(content);
    let found = found_colors(ls, 16);
    ThemeView {
        background: value_or(ls, "background"@, "#191724"@),
        foreground: value_or(ls, "foreground"@, "#e0def4"@),
        palette: if found.len() >= 10 {
            found
        } else {
            fallback_palette()
        },
        font_family: match setting(ls, "font_family"@) {
            Some(ws) => joined(ws),
            None => "Monospace"@,
        },
        font_size: first_word(setting(ls, "font_size"@)),
        selection_background: value_or(ls, "selection_background"@, "#403d52"@),
    }
}

/// Colours and font of the user interface.
pub struct Theme {
    pub background: String,
    pub foreground: String,
    pub palette: Vec<String>,
    pub font_family: String,
    /// The text of the last `font_size` setting, if any. Whoever shows the
    /// theme reads it as a number, and takes 14 where it is absent or is not
    /// a number.
    pub font_size: Option<String>,
    pub selection_background: String,
}

impl View for Theme {
    type V = ThemeView;

    open spec fn view(&self) -> ThemeView {
        ThemeView {
            background: self.background@,
            foreground: self.foreground@,
            palette: self.palette.deep_view(),
            font_family: self.font_family@,
            font_size: self.font_size.deep_view(),
            selection_background: self.selection_background@,
        }
    }
}

fn is_space_char(c: char) -> (r: bool)
    ensures
        r == is_space(c),
{
    let u = c as u32;
    (0x09 <= u && u <= 0x0D) || u == 0x20 || u == 0x85 || u == 0xA0 || u == 0x1680 || (0x2000 <= u
        && u <= 0x200A) || u == 0x2028 || u == 0x2029 || u == 0x202F || u == 0x205F || u == 0x3000
}

/// The words of `line`, each as a string of its own.
fn split_words(line: &str) -> (ws: Vec<String>)
    ensures
        ws.deep_view() == words(line@),
{
    let ghost s = line@;
    let n = line.unicode_len();
    let mut ws: Vec<String> = Vec::new();
    let mut in_word = false;
    let mut start: usize = 0;
    let mut i: usize = 0;
    for c in it: line.chars()
        invariant
            it.seq() == s,
            s == line@,
            s.len() == n,
            i == it.index(),
            start <= i <= s.len(),
            in_word ==> start < i,
            in_word <==> (i > 0 && !is_space(s[i - 1])),
            words(s.take(i as int)) == if in_word {
                ws.deep_view().push(s.subrange(start as int, i as int))
            } else {
                ws.deep_view()
            },
    {
        let ghost ws0 = ws.deep_view();
        let ghost pre = s.take(i as int);
        assert(s.take(i + 1).drop_last() =~= pre);
        assert(s.take(i + 1).last() == c);
        if is_space_char(c) {
            if in_word {
                ws.push(String::from_str(line.substring_char(start, i)));
                assert(ws.deep_view() =~= ws0.push(s.subrange(start as int, i as int)));
                in_word = false;
            }
        } else if !in_word {
            start = i;
            in_word = true;
            assert(s.subrange(start as int, i + 1) =~= seq![c]);
        } else {
            assert(s.subrange(start as int, i + 1) =~= s.subrange(start as int, i as int).push(c));
        }
        i = i + 1;
    }
    if in_word {
        let ghost ws0 = ws.deep_view();
        ws.push(String::from_str(line.substring_char(start, i)));
        assert(ws.deep_view() =~= ws0.push(s.subrange(start as int, i as int)));
    }
    assert(s.take(i as int) =~= s);
    ws
}

/// The palette entry that `key` names, if it is one of `color0` to `color15`.
fn color_slot(key: &String) -> (r: Option<usize>)
    ensures
        r is Some ==> r->0 < 16 && key@ == color_key(r->0 as nat),
        r is None ==> forall|i: nat| i < 16 ==> key@ != #[trigger] color_key(i),
{
    proof {
        reveal_strlit("color");
    }
    let k = key.as_str();
    let n = k.unicode_len();
    if n != 6 && n != 7 {
        return None;
    }
    if k.get_char(0) != 'c' || k.get_char(1) != 'o' || k.get_char(2) != 'l' || k.get_char(3) != 'o'
        || k.get_char(4) != 'r' {
        return None;
    }
    if n == 6 {
        let d = k.get_char(5) as u32;
        if 48 <= d && d <= 57 {
            let i = (d - 48) as usize;
            assert(key@ =~= color_key(i as nat));
            return Some(i);
        }
        return None;
    }
    if k.get_char(5) != '1' {
        return None;
    }
    let d = k.get_char(6) as u32;
    if 48 <= d && d <= 53 {
        let i = (d - 38) as usize;
        assert(key@ =~= color_key(i as nat));
        return Some(i);
    }
    None
}

/// The words of `ws` after the first, joined with single spaces.
fn join_rest(ws: &Vec<String>) -> (r: String)
    requires
        ws@.len() >= 2,
    ensures
        r@ == joined(ws.deep_view().drop_first()),
{
    proof {
        reveal_strlit(" ");
        assert(" "@ =~= seq![' ']);
    }
    let ghost v = ws.deep_view();
    let mut r = ws[1].clone();
    let mut i: usize = 2;
    assert(v.subrange(1, 2).drop_last() =~= seq![]);
    while i < ws.len()
        invariant
            2 <= i <= ws@.len(),
            v == ws.deep_view(),
            " "@ == seq![' '],
            r@ == joined(v.subrange(1, i as int)),
        decreases ws.len() - i,
    {
        let ghost r0 = r@;
        r.append(" ");
        assert(r@ == r0 + " "@);
        let piece = ws[i].as_str();
        assert(piece@ == ws@[i as int]@);
        r.append(piece);
        assert(r@ == r0 + " "@ + ws@[i as int]@);
        assert(v.subrange(1, i + 1).drop_last() =~= v.subrange(1, i as int));
        assert(v.subrange(1, i + 1).last() == ws@[i as int]@);
        assert(r@ =~= r0 + seq![' '] + v.subrange(1, i + 1).last());
        i = i + 1;
    }
    assert(v.subrange(1, i as int) =~= v.drop_first());
    r
}

/// A line that sets `key` gives its value; any other line leaves it as it was.
proof fn lemma_setting_push(ls: Seq<Seq<Seq<char>>>, w: Seq<Seq<char>>, key: Seq<char>)
    ensures
        setting(ls.push(w), key) == if w.len() >= 2 && w[0] == key {
            Some(w.drop_first())
        } else {
            setting(ls, key)
        },
{
    assert(ls.push(w).drop_last() =~= ls);
}

/// What the lines read so far set, key by key.
struct Settings {
    background: Option<String>,
    foreground: Option<String>,
    selection_background: Option<String>,
    font_family: Option<String>,
    font_size: Option<String>,
    colors: Vec<Option<String>>,
}

impl Settings {
    /// Each field holds what the lines `ls` set its key to.
    spec fn holds(&self, ls: Seq<Seq<Seq<char>>>) -> bool {
        &&& self.background.deep_view() == first_word(setting(ls, "background"@))
        &&& self.foreground.deep_view() == first_word(setting(ls, "foreground"@))
        &&& self.selection_background.deep_view() == first_word(
            setting(ls, "selection_background"@),
        )
        &&& self.font_family.deep_view() == match setting(ls, "font_family"@) {
            Some(ws) => Some(joined(ws)),
            None => None,
        }
        &&& self.font_size.deep_view() == first_word(setting(ls, "font_size"@))
        &&& self.colors@.len() == 16
        &&& forall|i: int|
            0 <= i < 16 ==> #[trigger] self.colors@[i].deep_view() == first_word(
                setting(ls, color_key(i as nat)),
            )
    }

    fn new() -> (st: Settings)
        ensures
            st.holds(seq![]),
    {
        let mut colors: Vec<Option<String>> = Vec::new();
        let mut i: usize = 0;
        while i < 16
            invariant
                i <= 16,
                colors@.len() == i,
                forall|k: int| 0 <= k < i ==> #[trigger] colors@[k] is None,
            decreases 16 - i,
        {
            colors.push(None);
            i = i + 1;
        }
        Settings {
            background: None,
            foreground: None,
            selection_background: None,
            font_family: None,
            font_size: None,
            colors,
        }
    }

    /// Takes in one more line, given as its words.
    fn apply_line(&mut self, ws: &Vec<String>, Ghost(ls): Ghost<Seq<Seq<Seq<char>>>>)
        requires
            old(self).holds(ls),
        ensures
            final(self).holds(ls.push(ws.deep_view())),
    {
        let ghost w = ws.deep_view();
        let ghost next = ls.push(w);
        proof {
            lemma_setting_push(ls, w, "background"@);
            lemma_setting_push(ls, w, "foreground"@);
            lemma_setting_push(ls, w, "selection_background"@);
            lemma_setting_push(ls, w, "font_family"@);
            lemma_setting_push(ls, w, "font_size"@);
            assert forall|i: int| 0 <= i < 16 implies #[trigger] setting(next, color_key(i as nat))
                == if w.len() >= 2 && w[0] == color_key(i as nat) {
                Some(w.drop_first())
            } else {
                setting(ls, color_key(i as nat))
            } by {
                lemma_setting_push(ls, w, color_key(i as nat));
            }
            reveal_strlit("background");
            reveal_strlit("foreground");
            reveal_strlit("selection_background");
            reveal_strlit("font_family");
            reveal_strlit("font_size");
            reveal_strlit("color");
            assert("background"@[0] != "foreground"@[0]);
            assert("background"@.len() == 10);
            assert("foreground"@.len() == 10);
            assert("selection_background"@.len() == 20);
            assert("font_family"@.len() == 11);
            assert("font_size"@.len() == 9);
            assert forall|i: int| 0 <= i < 16 implies (#[trigger] color_key(i as nat)).len() <= 7 by {}
            assert forall|i: int| 0 <= i < 16 && w.len() >= 2 && w[0].len() > 7 implies #[trigger] setting(
                next,
                color_key(i as nat),
            ) == setting(ls, color_key(i as nat)) by {
                assert(color_key(i as nat).len() <= 7);
            }
        }
        if ws.len() < 2 {
            return;
        }
        let key = &ws[0];
        let val = ws[1].clone();
        assert(first_word(Some(w.drop_first())) == Some(val@));
        if *key == String::from_str("background") {
            self.background = Some(val);
        } else if *key == String::from_str("foreground") {
            self.foreground = Some(val);
        } else if *key == String::from_str("selection_background") {
            self.selection_background = Some(val);
        } else if *key == String::from_str("font_family") {
            self.font_family = Some(join_rest(ws));
        } else if *key == String::from_str("font_size") {
            self.font_size = Some(val);
        } else {
            match color_slot(key) {
                Some(i) => {
                    self.colors.set(i, Some(val));
                    assert forall|j: int| 0 <= j < 16 && j != i implies w[0] != #[trigger] color_key(
                        j as nat,
                    ) by {
                        if j < 10 && i < 10 {
                            assert(color_key(j as nat)[5] != color_key(i as nat)[5]);
                        } else if j >= 10 && i >= 10 {
                            assert(color_key(j as nat)[6] != color_key(i as nat)[6]);
                        } else {
                            assert(color_key(j as nat).len() != color_key(i as nat).len());
                        }
                    }
                },
                None => {},
            }
        }
    }
}

/// The fallback palette, as strings.
fn fallback() -> (p: Vec<String>)
    ensures
        p.deep_view() == fallback_palette(),
{
    let p = vec![
        String::from_str("#9ccfd8"),
        String::from_str("#c4a7e7"),
        String::from_str("#ebbcba"),
        String::from_str("#f6c177"),
        String::from_str("#ea9d34"),
        String::from_str("#d7827e"),
        String::from_str("#907aa9"),
        String::from_str("#b4637a"),
        String::from_str("#88a096"),
        String::from_str("#9bb1d6"),
        String::from_str("#c2d1b2"),
        String::from_str("#e8d1c5"),
        String::from_str("#d4b5d8"),
        String::from_str("#adcbe3"),
        String::from_str("#e1e1e1"),
    ];
    assert(p.deep_view() =~= fallback_palette());
    p
}

/// `value` where there is one, else `default`.
fn or_default(value: Option<String>, default: &str) -> (r: String)
    ensures
        r@ == match value.deep_view() {
            Some(v) => v,
            None => default@,
        },
{
    match value {
        Some(v) => v,
        None => String::from_str(default),
    }
}

/// Reads the theme that the text `content` describes. Reading never fails:
/// lines of fewer than two words and unknown keys are passed over, and what
/// the text does not set keeps its built-in value.
pub fn load_theme(content: &str) -> (t: Theme)
    ensures
        t@ == theme_of(content@),
        found_colors(line_words(content@), 16).len() >= 10 ==> t@.palette == found_colors(
            line_words(content@),
            16,
        ),
        found_colors(line_words(content@), 16).len() < 10 ==> t@.palette == fallback_palette(),
{
    let ghost s = content@;
    let n = content.unicode_len();
    let mut st = Settings::new();
    let mut start: usize = 0;
    let mut i: usize = 0;
    let ghost mut done: Seq<Seq<char>> = seq![];
    assert(s.take(0) =~= seq![]);
    assert(done.push(s.subrange(0, 0)) =~= seq![seq![]]);
    for c in it: content.chars()
        invariant
            it.seq() == s,
            s == content@,
            s.len() == n,
            i == it.index(),
            start <= i <= n,
            lines(s.take(i as int)) == done.push(s.subrange(start as int, i as int)),
            st.holds(done.map_values(|l: Seq<char>| words(l))),
    {
        let ghost pre = s.take(i as int);
        assert(s.take(i + 1).drop_last() =~= pre);
        assert(s.take(i + 1).last() == c);
        if c == '\n' {
            let ws = split_words(content.substring_char(start, i));
            st.apply_line(&ws, Ghost(done.map_values(|l: Seq<char>| words(l))));
            proof {
                let line = s.subrange(start as int, i as int);
                assert(done.push(line).map_values(|l: Seq<char>| words(l)) =~= done.map_values(
                    |l: Seq<char>| words(l),
                ).push(words(line)));
                done = done.push(line);
                assert(s.subrange(i + 1, i + 1) =~= seq![]);
            }
            start = i + 1;
        } else {
            assert(s.subrange(start as int, i + 1) =~= s.subrange(start as int, i as int).push(c));
        }
        i = i + 1;
    }
    let ws = split_words(content.substring_char(start, n));
    st.apply_line(&ws, Ghost(done.map_values(|l: Seq<char>| words(l))));
    let ghost ls = line_words(s);
    proof {
        let line = s.subrange(start as int, n as int);
        assert(s.take(n as int) =~= s);
        assert(ls =~= done.push(line).map_values(|l: Seq<char>| words(l)));
        assert(done.push(line).map_values(|l: Seq<char>| words(l)) =~= done.map_values(
            |l: Seq<char>| words(l),
        ).push(words(line)));
    }
    let mut palette: Vec<String> = Vec::new();
    let mut k: usize = 0;
    while k < 16
        invariant
            k <= 16,
            st.holds(ls),
            palette.deep_view() == found_colors(ls, k as nat),
        decreases 16 - k,
    {
        let ghost p0 = palette.deep_view();
        assert(st.colors@[k as int].deep_view() == first_word(setting(ls, color_key(k as nat))));
        match &st.colors[k] {
            Some(c) => {
                palette.push(c.clone());
                assert(palette.deep_view() =~= p0.push(c@));
            },
            None => {},
        }
        k = k + 1;
    }
    if palette.len() < 10 {
        palette = fallback();
    }
    let font_family = or_default(st.font_family, "Monospace");
    Theme {
        background: or_default(st.background, "#191724"),
        foreground: or_default(st.foreground, "#e0def4"),
        palette,
        font_family,
        font_size: st.font_size,
        selection_background: or_default(st.selection_background, "#403d52"),
    }
}

} // verus!
