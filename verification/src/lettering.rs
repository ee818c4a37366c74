//! The bar's lettering: which face draws which character, and text that is
//! cut to fit.
use vstd::prelude::*;

use crate::text;

verus! {

// ---------------------------------------------------------------------------
// The faces
// ---------------------------------------------------------------------------
/// A font that ab_glyph has read.
#[verifier::external_type_specification]
#[verifier::external_body]
pub struct ExFontVec(ab_glyph::FontVec);

/// What ab_glyph says of bytes that are no font.
#[verifier::external_type_specification]
#[verifier::external_body]
pub struct ExInvalidFont(ab_glyph::InvalidFont);

/// The bytes that a font was read from.
pub uninterp spec fn font_data(font: ab_glyph::FontVec) -> Seq<u8>;

/// The bytes `data` are a font.
pub uninterp spec fn is_font(data: Seq<u8>) -> bool;

/// The glyph of the font `data` for the character `c`, zero where it has
/// none.
pub uninterp spec fn glyph_in(data: Seq<u8>, c: char) -> u16;

/// `ab_glyph::FontVec::try_from_vec`: it depends on the bytes alone whether
/// they are a font, and the font keeps them as they are (its `as_slice` hands
/// them out again). What makes bytes a font is not stated.
#[verifier::external_body]
fn read_font(data: Vec<u8>) -> (r: Result<ab_glyph::FontVec, ab_glyph::InvalidFont>)
    ensures
        r is Ok <==> is_font(data@),
        r matches Ok(font) ==> font_data(font) == data@,
{
    ab_glyph::FontVec::try_from_vec(data)
}

/// `ab_glyph::Font::glyph_id`: the number of the glyph depends on the font's
/// bytes and the character alone, and is zero where the font's character map
/// has none. Which number it is otherwise is not stated.
#[verifier::external_body]
fn glyph_id(font: &ab_glyph::FontVec, c: char) -> (id: u16)
    ensures
        id == glyph_in(font_data(*font), c),
{
    ab_glyph::Font::glyph_id(font, c).0
}

/// Which face a character is drawn with.
#[derive(Clone, Copy, PartialEq, Eq, Debug, Structural)]
pub enum Face {
    /// The UI typeface: everything it has a glyph for.
    Ui,
    /// The Nerd Font: the icon glyphs, and anything the UI face lacks.
    Icon,
}

/// A character as it is drawn.
#[derive(Clone, Copy, PartialEq, Eq, Debug, Structural)]
pub struct Glyph {
    pub face: Face,
    pub id: u16,
    /// It is kerned with the one before it. Kerning only means something
    /// between two glyphs of one face.
    pub kerned: bool,
}

/// The icon face could not be read.
#[derive(Clone, Copy, PartialEq, Eq, Debug, Structural)]
pub struct BadIconFont;

/// The bar's type: a UI face for words and numbers, and the Nerd Font kept
/// for the icon glyphs the UI face cannot draw.
///
/// One face at a time reads either as a terminal (everything in the mono
/// Nerd Font) or as a bar with no icons; two faces, chosen per character,
/// is how the bar gets both.
pub struct Text {
    ui: Option<ab_glyph::FontVec>,
    icon: ab_glyph::FontVec,
}

/// The bytes of the two faces.
pub struct TextView {
    /// The UI face, when it loaded. `None` means a bar of a single font:
    /// every character comes from `icon`.
    pub ui: Option<Seq<u8>>,
    pub icon: Seq<u8>,
}

impl View for Text {
    type V = TextView;

    closed spec fn view(&self) -> TextView {
        TextView {
            ui: match self.ui {
                Some(f) => Some(font_data(f)),
                None => None,
            },
            icon: font_data(self.icon),
        }
    }
}

/// The face for `c` and its glyph there: the UI face if it has the glyph,
/// else the icon face.
pub open spec fn face_for(t: TextView, c: char) -> (Face, u16) {
    match t.ui {
        Some(ui) => if glyph_in(ui, c) != 0 {
            (Face::Ui, glyph_in(ui, c))
        } else {
            (Face::Icon, glyph_in(t.icon, c))
        },
        None => (Face::Icon, glyph_in(t.icon, c)),
    }
}

/// The `i`-th glyph of the line `s`.
pub open spec fn glyph_at(t: TextView, s: Seq<char>, i: int) -> Glyph {
    let (face, id) = face_for(t, s[i]);
    Glyph { face, id, kerned: i > 0 && face_for(t, s[i - 1]).0 == face }
}

/// The face of a character, given the glyphs that the faces have for it.
pub fn choose_face(ui: Option<u16>, icon: u16) -> (r: (Face, u16))
    ensures
        r == match ui {
            Some(id) => if id != 0 {
                (Face::Ui, id)
            } else {
                (Face::Icon, icon)
            },
            None => (Face::Icon, icon),
        },
{
    match ui {
        Some(id) => if id != 0 {
            (Face::Ui, id)
        } else {
            (Face::Icon, icon)
        },
        None => (Face::Icon, icon),
    }
}

impl Text {
    /// The two faces, from the contents of their files. `ui` is optional, and
    /// one that is no font counts as none; `icon` must load.
    pub fn load(ui: Option<Vec<u8>>, icon: Vec<u8>) -> (r: Result<Text, BadIconFont>)
        ensures
            r is Ok <==> is_font(icon@),
            r matches Ok(t) ==> t@ == (TextView {
                ui: match ui {
                    Some(data) => if is_font(data@) {
                        Some(data@)
                    } else {
                        None
                    },
                    None => None,
                },
                icon: icon@,
            }),
    {
        let icon = match read_font(icon) {
            Ok(f) => f,
            Err(_) => return Err(BadIconFont),
        };
        let ui = match ui {
            Some(data) => match read_font(data) {
                Ok(f) => Some(f),
                Err(_) => None,
            },
            None => None,
        };
        Ok(Text { ui, icon })
    }

    /// Whether the UI face loaded.
    pub fn has_ui(&self) -> (r: bool)
        ensures
            r == (self@.ui is Some),
    {
        self.ui.is_some()
    }

    /// The font of a face.
    pub fn font(&self, face: Face) -> (f: &ab_glyph::FontVec)
        ensures
            font_data(*f) == match face {
                Face::Ui => match self@.ui {
                    Some(ui) => ui,
                    None => self@.icon,
                },
                Face::Icon => self@.icon,
            },
    {
        match face {
            Face::Ui => match &self.ui {
                Some(f) => f,
                None => &self.icon,
            },
            Face::Icon => &self.icon,
        }
    }

    /// The face for `c`: the UI face if it has the glyph, else the icon face.
    pub fn face_of(&self, c: char) -> (r: (Face, u16))
        ensures
            r == face_for(self@, c),
    {
        let ui: Option<u16> = match &self.ui {
            Some(f) => Some(glyph_id(f, c)),
            None => None,
        };
        choose_face(ui, glyph_id(&self.icon, c))
    }

    /// The glyphs of a line. Its width and its drawing share this, so they
    /// can never disagree about which glyph stands where.
    pub fn walk(&self, s: &str) -> (r: Vec<Glyph>)
        ensures
            r@ == Seq::new(s@.len(), |i: int| glyph_at(self@, s@, i)),
    {
        let v = text::chars(s);
        let mut r: Vec<Glyph> = Vec::new();
        let mut before: Option<Face> = None;
        let mut i: usize = 0;
        while i < v.len()
            invariant
                i <= v@.len(),
                v@ == s@,
                r@.len() == i,
                before == if i > 0 {
                    Some(face_for(self@, s@[i - 1]).0)
                } else {
                    None
                },
                forall|j: int| 0 <= j < i ==> #[trigger] r@[j] == glyph_at(self@, s@, j),
            decreases v@.len() - i,
        {
            let (face, id) = self.face_of(v[i]);
            let kerned = match before {
                Some(b) => b == face,
                None => false,
            };
            r.push(Glyph { face, id, kerned });
            before = Some(face);
            i += 1;
        }
        assert(r@ =~= Seq::new(s@.len(), |i: int| glyph_at(self@, s@, i)));
        r
    }
}

// ---------------------------------------------------------------------------
// Text on one line
// ---------------------------------------------------------------------------
/// The words of `s`, one space between each two.
pub open spec fn flat(s: Seq<char>) -> Seq<char> {
    text::joined(text::words(s), " "@)
}

/// Text on one line: a body's line breaks and runs of spaces become one space.
pub fn flatten(s: &str) -> (r: String)
    ensures
        r@ == flat(s@),
{
    let words = text::split_words(s);
    text::join(&words, " ")
}

/// `s` less its last `n` characters, ending in an ellipsis.
pub open spec fn cut(s: Seq<char>, n: int) -> Seq<char> {
    text::trimmed_end(s.take(s.len() - n)) + "…"@
}

/// `fits` answered `b` of the text `s`.
pub open spec fn answers<F: Fn(&str) -> bool>(fits: F, s: Seq<char>, b: bool) -> bool {
    exists|x: &str| x@ == s && #[trigger] call_ensures(fits, (x,), b)
}

/// `s` cut to what fits, ending in an ellipsis when it had to be: `s` itself,
/// else the longest beginning of it that fits with an ellipsis behind it, else
/// nothing.
pub fn ellipsize<F: Fn(&str) -> bool>(s: &str, fits: F) -> (r: String)
    requires
        forall|x: &str| call_requires(fits, (x,)),
    ensures
        r@ == s@ && answers(fits, s@, true) || answers(fits, s@, false) && ((exists|n: int|
            1 <= n <= s@.len() && r@ == #[trigger] cut(s@, n) && answers(fits, cut(s@, n), true)
                && forall|m: int|
                1 <= m < n ==> answers(fits, #[trigger] cut(s@, m), false)) || (r@
            == Seq::<char>::empty() && forall|m: int|
            1 <= m <= s@.len() ==> answers(fits, #[trigger] cut(s@, m), false))),
{
    if fits(s) {
        assert(answers(fits, s@, true));
        return s.to_owned();
    }
    assert(answers(fits, s@, false));
    let v = text::chars(s);
    let mut n: usize = 0;
    while n < v.len()
        invariant
            n <= v@.len(),
            v@ == s@,
            forall|x: &str| call_requires(fits, (x,)),
            answers(fits, s@, false),
            forall|m: int| 1 <= m <= n ==> answers(fits, #[trigger] cut(s@, m), false),
        decreases v@.len() - n,
    {
        n += 1;
        let head = text::string_of(&v, 0, v.len() - n);
        assert(v@.subrange(0, v@.len() - n) == s@.take(s@.len() - n));
        let mut candidate = text::trim_end(head.as_str());
        candidate.append("…");
        assert(candidate@ == cut(s@, n as int));
        let ok = fits(candidate.as_str());
        assert(answers(fits, cut(s@, n as int), ok));
        if ok {
            return candidate;
        }
    }
    String::new()
}

// ---------------------------------------------------------------------------
// What holds of every text
// ---------------------------------------------------------------------------
/// `w` is a word.
pub open spec fn is_word(w: Seq<char>) -> bool {
    w.len() > 0 && forall|i: int| 0 <= i < w.len() ==> !text::is_space(#[trigger] w[i])
}

proof fn lemma_word_len_is_word(s: Seq<char>)
    ensures
        text::word_len(s) <= s.len(),
        forall|i: int| 0 <= i < text::word_len(s) ==> !text::is_space(#[trigger] s[i]),
    decreases s.len(),
{
    if s.len() > 0 && !text::is_space(s[0]) {
        let t = s.drop_first();
        lemma_word_len_is_word(t);
        assert forall|i: int| 0 <= i < text::word_len(s) implies !text::is_space(
            #[trigger] s[i],
        ) by {
            if i > 0 {
                assert(t[i - 1] == s[i]);
            }
        }
    }
}

proof fn lemma_words_are_words(s: Seq<char>)
    ensures
        forall|i: int| 0 <= i < text::words(s).len() ==> is_word(#[trigger] text::words(s)[i]),
    decreases s.len(),
{
    let t = text::trimmed_start(s);
    text::lemma_trimmed_start_len(s);
    if t.len() > 0 {
        let n = text::word_len(t);
        text::lemma_word_len_bound(t);
        lemma_word_len_is_word(t);
        let rest = text::words(t.skip(n as int));
        lemma_words_are_words(t.skip(n as int));
        assert(is_word(t.take(n as int)));
        assert forall|i: int| 0 <= i < text::words(s).len() implies is_word(
            #[trigger] text::words(s)[i],
        ) by {
            if i > 0 {
                assert(text::words(s)[i] == rest[i - 1]);
            }
        }
    }
}

proof fn lemma_word_ends(w: Seq<char>, t: Seq<char>)
    requires
        forall|i: int| 0 <= i < w.len() ==> !text::is_space(#[trigger] w[i]),
        t.len() > 0 ==> text::is_space(t[0]),
    ensures
        text::word_len(w + t) == w.len(),
    decreases w.len(),
{
    if w.len() > 0 {
        let v = w.drop_first();
        assert((w + t).drop_first() == v + t);
        assert forall|i: int| 0 <= i < v.len() implies !text::is_space(#[trigger] v[i]) by {
            assert(v[i] == w[i + 1]);
        }
        lemma_word_ends(v, t);
        assert((w + t)[0] == w[0]);
    } else {
        assert(w + t == t);
    }
}

proof fn lemma_joined_front(ws: Seq<Seq<char>>, sep: Seq<char>)
    requires
        ws.len() >= 2,
    ensures
        text::joined(ws, sep) == ws[0] + sep + text::joined(ws.drop_first(), sep),
    decreases ws.len(),
{
    let front = ws.drop_last();
    let back = ws.drop_first();
    assert(back.last() == ws.last());
    if ws.len() > 2 {
        lemma_joined_front(front, sep);
        assert(front.drop_first() == back.drop_last());
        assert(text::joined(ws, sep) == ws[0] + sep + text::joined(back, sep));
    } else {
        assert(text::joined(front, sep) == ws[0]);
        assert(text::joined(back, sep) == ws[1]);
    }
}

proof fn lemma_words_of_joined(ws: Seq<Seq<char>>)
    requires
        forall|i: int| 0 <= i < ws.len() ==> is_word(#[trigger] ws[i]),
    ensures
        text::words(text::joined(ws, " "@)) == ws,
    decreases ws.len(),
{
    reveal_strlit(" ");
    let s = text::joined(ws, " "@);
    if ws.len() == 0 {
        assert(text::trimmed_start(s) == s);
    } else if ws.len() == 1 {
        assert(is_word(ws[0]));
        lemma_word_ends(ws[0], Seq::empty());
        assert(ws[0] + Seq::<char>::empty() == ws[0]);
        assert(text::trimmed_start(s) == s);
        assert(s.take(s.len() as int) == s);
        assert(s.skip(s.len() as int) == Seq::<char>::empty());
        assert(text::words(Seq::<char>::empty()) == Seq::<Seq<char>>::empty());
    } else {
        let back = ws.drop_first();
        let rest = text::joined(back, " "@);
        lemma_joined_front(ws, " "@);
        assert forall|i: int| 0 <= i < back.len() implies is_word(#[trigger] back[i]) by {
            assert(back[i] == ws[i + 1]);
        }
        lemma_words_of_joined(back);
        assert(is_word(ws[0]));
        let tail = " "@ + rest;
        assert(s == ws[0] + tail);
        assert(s[0] == ws[0][0]);
        assert(text::trimmed_start(s) == s);
        lemma_word_ends(ws[0], tail);
        assert(s.take(ws[0].len() as int) == ws[0]);
        assert(s.skip(ws[0].len() as int) == tail);
        assert(tail.drop_first() == rest);
        assert(text::trimmed_start(tail) == text::trimmed_start(rest));
        assert(text::words(tail) == text::words(rest));
        assert(ws == seq![ws[0]] + back);
    }
}

/// Flattening changes the spaces and nothing else: the words stay as they
/// are, so to flatten twice is to flatten once.
pub proof fn law_flat_keeps_words(s: Seq<char>)
    ensures
        text::words(flat(s)) == text::words(s),
        flat(flat(s)) == flat(s),
{
    lemma_words_are_words(s);
    lemma_words_of_joined(text::words(s));
}

/// Flat text is on one line: the only white space in it is the plain space,
/// none at either end and no two together.
pub proof fn law_flat_is_one_line(s: Seq<char>)
    ensures
        forall|i: int|
            0 <= i < flat(s).len() ==> !text::is_space(#[trigger] flat(s)[i]) || flat(s)[i] == ' ',
        flat(s).len() > 0 ==> !text::is_space(flat(s)[0]) && !text::is_space(flat(s).last()),
        forall|i: int|
            0 <= i < flat(s).len() - 1 ==> !text::is_space(#[trigger] flat(s)[i])
                || !text::is_space(flat(s)[i + 1]),
{
    lemma_words_are_words(s);
    lemma_joined_spaces(text::words(s));
}

proof fn lemma_joined_spaces(ws: Seq<Seq<char>>)
    requires
        forall|i: int| 0 <= i < ws.len() ==> is_word(#[trigger] ws[i]),
    ensures
        ({
            let f = text::joined(ws, " "@);
            &&& ws.len() > 0 ==> f.len() > 0
            &&& forall|i: int|
                0 <= i < f.len() ==> !text::is_space(#[trigger] f[i]) || f[i] == ' '
            &&& f.len() > 0 ==> !text::is_space(f[0]) && !text::is_space(f.last())
            &&& forall|i: int|
                0 <= i < f.len() - 1 ==> !text::is_space(#[trigger] f[i]) || !text::is_space(
                    f[i + 1],
                )
        }),
    decreases ws.len(),
{
    reveal_strlit(" ");
    let f = text::joined(ws, " "@);
    if ws.len() == 1 {
        assert(is_word(ws[0]));
    } else if ws.len() > 1 {
        let front = ws.drop_last();
        assert forall|i: int| 0 <= i < front.len() implies is_word(#[trigger] front[i]) by {
            assert(front[i] == ws[i]);
        }
        lemma_joined_spaces(front);
        let g = text::joined(front, " "@);
        let last = ws.last();
        assert(is_word(ws[ws.len() - 1]));
        assert(f == g + " "@ + last);
        let n = g.len() as int;
        assert(f[n] == ' ');
        assert forall|i: int| 0 <= i < f.len() implies !text::is_space(#[trigger] f[i]) || f[i]
            == ' ' by {
            if i < n {
                assert(f[i] == g[i]);
            } else if i > n {
                assert(f[i] == last[i - n - 1]);
            }
        }
        assert(f[0] == g[0]);
        assert(f.last() == last.last());
        assert forall|i: int| 0 <= i < f.len() - 1 implies !text::is_space(#[trigger] f[i])
            || !text::is_space(f[i + 1]) by {
            if i < n - 1 {
                assert(f[i] == g[i] && f[i + 1] == g[i + 1]);
            } else if i == n - 1 {
                assert(f[i] == g.last());
            } else {
                assert(f[i + 1] == last[i - n]);
            }
        }
    }
}

/// Text that was cut is shorter than it was, or as long, and is the beginning
/// of it but for the ellipsis.
pub proof fn law_cut_is_a_beginning(s: Seq<char>, n: int)
    requires
        1 <= n <= s.len(),
    ensures
        1 <= cut(s, n).len() <= s.len(),
        cut(s, n).last() == '…',
        cut(s, n).drop_last() == s.take(cut(s, n).len() - 1),
{
    reveal_strlit("…");
    let head = s.take(s.len() - n);
    lemma_trimmed_end_is_a_beginning(head);
    let t = text::trimmed_end(head);
    assert(cut(s, n).drop_last() == t);
    assert(s.take(t.len() as int) == head.take(t.len() as int));
}

proof fn lemma_trimmed_end_is_a_beginning(s: Seq<char>)
    ensures
        text::trimmed_end(s).len() <= s.len(),
        text::trimmed_end(s) == s.take(text::trimmed_end(s).len() as int),
    decreases s.len(),
{
    if s.len() > 0 && text::is_space(s.last()) {
        lemma_trimmed_end_is_a_beginning(s.drop_last());
        let n = text::trimmed_end(s).len() as int;
        assert(s.drop_last().take(n) == s.take(n));
    } else {
        assert(s.take(s.len() as int) == s);
    }
}

/// A character is drawn by the UI face exactly if that is there and has a glyph
/// for it; the icon face draws the rest. Its glyph is that of the face it is
/// drawn by.
pub proof fn law_face(t: &Text, c: char, r: (Face, u16))
    requires
        call_ensures(Text::face_of, (t, c), r),
    ensures
        r.0 == Face::Ui <==> (t@.ui matches Some(ui) && glyph_in(ui, c) != 0),
        r.0 == Face::Ui ==> r.1 == glyph_in(t@.ui.unwrap(), c) && r.1 != 0,
        r.0 == Face::Icon ==> r.1 == glyph_in(t@.icon, c),
{
}

/// A line is drawn character by character, each by its own face; it is kerned
/// with the one before it exactly if both are of one face, and the first never
/// is.
pub proof fn law_walk(t: &Text, s: &str, r: Vec<Glyph>, i: int)
    requires
        call_ensures(Text::walk, (t, s), r),
        0 <= i < s@.len(),
    ensures
        r@.len() == s@.len(),
        (r@[i].face, r@[i].id) == face_for(t@, s@[i]),
        r@[i].face == Face::Ui <==> (t@.ui matches Some(ui) && glyph_in(ui, s@[i]) != 0),
        i == 0 ==> !r@[i].kerned,
        i > 0 ==> (r@[i].kerned <==> r@[i].face == r@[i - 1].face),
{
}

/// The UI face is there exactly if its file could be read and is a font; the
/// icon face must be.
pub proof fn law_load(ui: Option<Vec<u8>>, icon: Vec<u8>, r: Result<Text, BadIconFont>)
    requires
        call_ensures(Text::load, (ui, icon), r),
    ensures
        r is Ok <==> is_font(icon@),
        r matches Ok(t) ==> t@.icon == icon@,
        r matches Ok(t) ==> (t@.ui is Some <==> ui is Some && is_font(ui.unwrap()@)),
        r matches Ok(t) ==> (t@.ui matches Some(data) ==> data == ui.unwrap()@),
{
}

/// What is cut off are the last `n` characters, and white space before them;
/// nothing else, and the ellipsis never follows white space.
pub proof fn law_cut(s: Seq<char>, n: int)
    requires
        1 <= n <= s.len(),
    ensures
        ({
            let kept = cut(s, n).drop_last();
            &&& kept.len() <= s.len() - n
            &&& kept == s.take(kept.len() as int)
            &&& forall|i: int| kept.len() <= i < s.len() - n ==> text::is_space(#[trigger] s[i])
            &&& kept.len() > 0 ==> !text::is_space(kept.last())
            &&& cut(s, n).last() == '…'
        }),
{
    reveal_strlit("…");
    let head = s.take(s.len() - n);
    let t = text::trimmed_end(head);
    text::law_trimmed_end(head);
    assert(cut(s, n).drop_last() =~= t);
    assert(t =~= s.take(t.len() as int));
    assert forall|i: int| t.len() <= i < s.len() - n implies text::is_space(#[trigger] s[i]) by {
        assert(head.skip(t.len() as int)[i - t.len()] == s[i]);
    }
}

/// What [`ellipsize`] gives is the whole text where that fits; otherwise it is
/// a text that fits, cut by as little as can be, or nothing. Nothing that does
/// not fit ever comes out.
pub proof fn law_ellipsize<F: Fn(&str) -> bool>(
    s: &str,
    fits: F,
    f: spec_fn(Seq<char>) -> bool,
    r: String,
)
    requires
        call_ensures(ellipsize::<F>, (s, fits), r),
        forall|x: &str| call_requires(fits, (x,)),
        forall|x: &str, b: bool| #[trigger] call_ensures(fits, (x,), b) ==> b == f(x@),
    ensures
        f(s@) ==> r@ == s@,
        r@.len() > 0 ==> f(r@),
        !f(s@) ==> r@ == Seq::<char>::empty() || exists|n: int|
            1 <= n <= s@.len() && r@ == #[trigger] cut(s@, n) && forall|m: int|
                1 <= m < n ==> !f(#[trigger] cut(s@, m)),
        !f(s@) && r@ == Seq::<char>::empty() ==> forall|m: int|
            1 <= m <= s@.len() ==> !f(#[trigger] cut(s@, m)),
{
    if !f(s@) && r@ == Seq::<char>::empty() {
        reveal_strlit("…");
        assert forall|m: int| cut(s@, m).len() > 0 by {}
    }
}

/// A glyph is drawn from the very font that it was found in.
pub proof fn law_font(t: &Text, c: char, r: (Face, u16), f: &ab_glyph::FontVec)
    requires
        call_ensures(Text::face_of, (t, c), r),
        call_ensures(Text::font, (t, r.0), f),
    ensures
        glyph_in(font_data(*f), c) == r.1,
{
}

/// There is a UI face exactly if it was loaded, and its font is then that, the
/// icon face's being the other.
pub proof fn law_has_ui(
    t: &Text,
    loaded: bool,
    ui: &ab_glyph::FontVec,
    icon: &ab_glyph::FontVec,
)
    requires
        call_ensures(Text::has_ui, (t,), loaded),
        call_ensures(Text::font, (t, Face::Ui), ui),
        call_ensures(Text::font, (t, Face::Icon), icon),
    ensures
        loaded ==> t@.ui == Some(font_data(*ui)),
        !loaded ==> t@.ui is None && font_data(*ui) == font_data(*icon),
        font_data(*icon) == t@.icon,
{
}

/// Of two glyphs the UI face's is taken unless it is missing, which a zero says.
pub proof fn law_choose_face(ui: Option<u16>, icon: u16, r: (Face, u16))
    requires
        call_ensures(choose_face, (ui, icon), r),
    ensures
        r.0 == Face::Ui ==> ui == Some(r.1) && r.1 != 0,
        r.0 == Face::Icon ==> r.1 == icon && (ui is None || ui == Some(0u16)),
{
}

/// Flattening is one space between each two words, and nothing before the first
/// or behind the last.
pub proof fn law_flatten(s: &str, r: String)
    requires
        call_ensures(flatten, (s,), r),
    ensures
        text::words(r@) == text::words(s@),
        text::words(s@).len() == 0 ==> r@.len() == 0,
        forall|i: int| 0 <= i < r@.len() ==> !text::is_space(#[trigger] r@[i]) || r@[i] == ' ',
        forall|i: int|
            0 <= i < r@.len() - 1 ==> !text::is_space(#[trigger] r@[i]) || !text::is_space(r@[i + 1]),
        r@.len() > 0 ==> !text::is_space(r@[0]) && !text::is_space(r@.last()),
{
    law_flat_keeps_words(s@);
    law_flat_is_one_line(s@);
}

} // verus!
