//! Translated interface strings and the choice of a translation for a locale tag.

use crate::game::level::BoardVariant;
use crate::game::state::Difficulty;
use vstd::prelude::*;

verus! {

broadcast use vstd::string::group_string_axioms;

// ---------------------------------------------------------------------------
// Characters
// ---------------------------------------------------------------------------

/// The characters with the Unicode `White_Space` property.
pub open spec fn white_space(c: char) -> bool {
    let u = c as u32;
    ||| 0x09 <= u <= 0x0D
    ||| u == 0x20
    ||| u == 0x85
    ||| u == 0xA0
    ||| u == 0x1680
    ||| 0x2000 <= u <= 0x200A
    ||| u == 0x2028
    ||| u == 0x2029
    ||| u == 0x202F
    ||| u == 0x205F
    ||| u == 0x3000
}

/// Whether `c` has the Unicode `White_Space` property (what `char::is_whitespace`
/// answers).
fn char_is_whitespace(c: char) -> (r: bool)
    ensures
        r == white_space(c),
{
    let u = c as u32;
    (0x09 <= u && u <= 0x0D) || u == 0x20 || u == 0x85 || u == 0xA0 || u == 0x1680 || (0x2000 <= u
        && u <= 0x200A) || u == 0x2028 || u == 0x2029 || u == 0x202F || u == 0x205F || u == 0x3000
}

/// `String::push`: appends `c`.
#[verifier::external_body]
fn push_char(s: &mut String, c: char)
    ensures
        final(s)@ == old(s)@.push(c),
{
    s.push(c)
}

/// The characters of `s`.
pub fn str_chars(s: &str) -> (r: Vec<char>)
    ensures
        r@ == s@,
{
    let mut r: Vec<char> = Vec::new();
    for c in it: s.chars()
        invariant
            r@ == it.history(),
    {
        r.push(c);
    }
    r
}

/// The string made of `chars`.
pub fn string_from_chars(chars: &Vec<char>) -> (r: String)
    ensures
        r@ == chars@,
{
    let mut r = String::new();
    let mut i: usize = 0;
    while i < chars.len()
        invariant
            i <= chars@.len(),
            r@ == chars@.take(i as int),
        decreases chars@.len() - i,
    {
        push_char(&mut r, chars[i]);
        proof {
            assert(chars@.take(i + 1) =~= chars@.take(i as int).push(chars@[i as int]));
        }
        i = i + 1;
    }
    proof {
        assert(chars@.take(chars@.len() as int) =~= chars@);
    }
    r
}

/// `a` and `b` hold the same characters.
pub fn chars_equal(a: &Vec<char>, b: &Vec<char>) -> (r: bool)
    ensures
        r == (a@ == b@),
{
    if a.len() != b.len() {
        return false;
    }
    let mut i: usize = 0;
    while i < a.len()
        invariant
            a@.len() == b@.len(),
            i <= a@.len(),
            forall|j: int| 0 <= j < i ==> a@[j] == b@[j],
        decreases a@.len() - i,
    {
        if a[i] != b[i] {
            return false;
        }
        i = i + 1;
    }
    proof {
        assert(a@ =~= b@);
    }
    true
}

// ---------------------------------------------------------------------------
// Trimming and normalising
// ---------------------------------------------------------------------------

/// `s` without its leading white space.
pub open spec fn trim_start(s: Seq<char>) -> Seq<char>
    decreases s.len(),
{
    if s.len() > 0 && white_space(s[0]) {
        trim_start(s.drop_first())
    } else {
        s
    }
}

/// `s` without its trailing white space.
pub open spec fn trim_end(s: Seq<char>) -> Seq<char>
    decreases s.len(),
{
    if s.len() > 0 && white_space(s.last()) {
        trim_end(s.drop_last())
    } else {
        s
    }
}

/// `s` without its leading and trailing white space.
pub open spec fn trim(s: Seq<char>) -> Seq<char> {
    trim_end(trim_start(s))
}

/// `trim_start(s)` is what follows the first `i` white-space characters.
proof fn lemma_trim_start_skip(s: Seq<char>, i: int)
    requires
        0 <= i <= s.len(),
        forall|j: int| 0 <= j < i ==> white_space(#[trigger] s[j]),
    ensures
        trim_start(s) == trim_start(s.skip(i)),
    decreases i,
{
    if i > 0 {
        assert(white_space(s[0]));
        assert(s.drop_first().skip(i - 1) =~= s.skip(i));
        assert forall|j: int| 0 <= j < i - 1 implies white_space(#[trigger] s.drop_first()[j]) by {
            assert(s.drop_first()[j] == s[j + 1]);
        }
        lemma_trim_start_skip(s.drop_first(), i - 1);
    } else {
        assert(s.skip(0) =~= s);
    }
}

/// `trim_end(s)` is what precedes the last `s.len() - i` white-space characters.
proof fn lemma_trim_end_take(s: Seq<char>, i: int)
    requires
        0 <= i <= s.len(),
        forall|j: int| i <= j < s.len() ==> white_space(#[trigger] s[j]),
    ensures
        trim_end(s) == trim_end(s.take(i)),
    decreases s.len() - i,
{
    if i < s.len() {
        assert(s.drop_last().take(i) =~= s.take(i));
        lemma_trim_end_take(s.drop_last(), i);
    } else {
        assert(s.take(i) =~= s);
    }
}

/// The characters of `s` without leading and trailing white space.
pub fn trim_chars(s: &Vec<char>) -> (r: Vec<char>)
    ensures
        r@ == trim(s@),
{
    let n = s.len();
    let mut start: usize = 0;
    while start < n && char_is_whitespace(s[start])
        invariant
            n == s@.len(),
            start <= n,
            forall|j: int| 0 <= j < start ==> white_space(#[trigger] s@[j]),
        decreases n - start,
    {
        start = start + 1;
    }
    proof {
        lemma_trim_start_skip(s@, start as int);
    }
    let ghost rest = s@.skip(start as int);
    assert(trim_start(s@) == rest) by {
        if start < n {
            assert(!white_space(rest[0]));
        }
    }
    let mut end: usize = n;
    while end > start && char_is_whitespace(s[end - 1])
        invariant
            n == s@.len(),
            start <= end <= n,
            rest == s@.skip(start as int),
            forall|j: int| end - start <= j < rest.len() ==> white_space(#[trigger] rest[j]),
        decreases end - start,
    {
        end = end - 1;
    }
    proof {
        lemma_trim_end_take(rest, end - start);
        let kept = rest.take(end - start);
        if end > start {
            assert(kept.last() == s@[end - 1]);
        }
        assert(trim_end(kept) == kept);
    }
    let mut r: Vec<char> = Vec::new();
    let mut i: usize = start;
    while i < end
        invariant
            n == s@.len(),
            start <= i <= end <= n,
            r@ == s@.subrange(start as int, i as int),
        decreases end - i,
    {
        r.push(s[i]);
        proof {
            assert(s@.subrange(start as int, i + 1) =~= s@.subrange(start as int, i as int).push(s@[i as int]));
        }
        i = i + 1;
    }
    proof {
        assert(r@ =~= rest.take(end - start));
    }
    r
}

/// The ASCII lower-case form of `c`: letters `A` to `Z` become `a` to `z`, every
/// other character stays.
pub open spec fn ascii_lower(c: char) -> char {
    if 'A' <= c <= 'Z' {
        ((c as u32) + 32) as char
    } else {
        c
    }
}

/// The separators `_` and `+` read as `-`.
pub open spec fn unify_separator(c: char) -> char {
    if c == '_' || c == '+' {
        '-'
    } else {
        c
    }
}

/// A locale tag in canonical form: trimmed, with `-` for each separator, in ASCII
/// lower case.
pub open spec fn normalize(tag: Seq<char>) -> Seq<char> {
    trim(tag).map_values(|c: char| ascii_lower(unify_separator(c)))
}

fn lower_char(c: char) -> (r: char)
    ensures
        r == ascii_lower(unify_separator(c)),
{
    if c == '_' || c == '+' {
        '-'
    } else if 'A' <= c && c <= 'Z' {
        ((c as u8) + 32) as char
    } else {
        c
    }
}

/// The characters of `tag` in canonical form (see `normalize`).
pub fn normalize_chars(tag: &Vec<char>) -> (r: Vec<char>)
    ensures
        r@ == normalize(tag@),
{
    let t = trim_chars(tag);
    let mut r: Vec<char> = Vec::new();
    let mut i: usize = 0;
    while i < t.len()
        invariant
            i <= t@.len(),
            r@ == t@.take(i as int).map_values(|c: char| ascii_lower(unify_separator(c))),
        decreases t@.len() - i,
    {
        r.push(lower_char(t[i]));
        proof {
            assert(t@.take(i + 1) =~= t@.take(i as int).push(t@[i as int]));
            assert(r@ =~= t@.take(i + 1).map_values(|c: char| ascii_lower(unify_separator(c))));
        }
        i = i + 1;
    }
    proof {
        assert(t@.take(t@.len() as int) =~= t@);
    }
    r
}

/// Normalises a locale tag written with any of the separators `-`, `_`, `+` and in any
/// case: `"ru_RU"`, `"ru+RU"` and `"RU-RU"` all become `"ru-ru"`.
pub fn normalize_locale_tag(tag: &str) -> (r: String)
    ensures
        r@ == normalize(tag@),
{
    let chars = str_chars(tag);
    let norm = normalize_chars(&chars);
    string_from_chars(&norm)
}

// ---------------------------------------------------------------------------
// The translations
// ---------------------------------------------------------------------------

/// The strings of the title screen.
#[derive(Debug, Clone)]
pub struct TitleScreenStrings {
    pub title: String,
    pub subtitle: String,
    pub board_variant: String,
    pub variant_classic: String,
    pub variant_classic_sub: String,
    pub variant_river_crossing: String,
    pub variant_river_crossing_sub: String,
    pub variant_fox_and_dogs: String,
    pub variant_fox_and_dogs_sub: String,
    pub variant_fox_and_dogs_maze: String,
    pub variant_fox_and_dogs_maze_sub: String,
    pub variant_the_red_hunt: String,
    pub variant_the_red_hunt_sub: String,
    pub choose_faction: String,
    pub fox_title: String,
    pub fox_subtitle: String,
    pub hounds_title: String,
    pub hounds_subtitle: String,
    pub ai_difficulty: String,
    pub difficulty_easy: String,
    pub difficulty_medium: String,
    pub difficulty_hard: String,
    pub start_match: String,
}

/// The strings shown during a match.
#[derive(Debug, Clone)]
pub struct HudStrings {
    pub fox_turn: String,
    pub hounds_turn: String,
    pub thinking: String,
    pub special_rule_notice: String,
}

/// The strings of the game-over screen.
#[derive(Debug, Clone)]
pub struct GameOverStrings {
    pub victory: String,
    pub defeat: String,
    pub fox_won_msg: String,
    pub hounds_won_msg: String,
    pub stats_template: String,
    pub play_again: String,
    pub main_menu: String,
}

/// One translation of the interface.
#[derive(Debug, Clone)]
pub struct LocaleStrings {
    pub locale: String,
    pub language_name: String,
    pub title_screen: TitleScreenStrings,
    pub hud: HudStrings,
    pub game_over: GameOverStrings,
}

impl TitleScreenStrings {
    /// The name of a difficulty.
    pub open spec fn spec_difficulty_name(&self, difficulty: Difficulty) -> Seq<char> {
        match difficulty {
            Difficulty::Easy => self.difficulty_easy@,
            Difficulty::Medium => self.difficulty_medium@,
            Difficulty::Hard => self.difficulty_hard@,
        }
    }

    /// The name of a board.
    pub open spec fn spec_variant_name(&self, variant: BoardVariant) -> Seq<char> {
        match variant {
            BoardVariant::Classic => self.variant_classic@,
            BoardVariant::RiverCrossing => self.variant_river_crossing@,
            BoardVariant::FoxAndDogs => self.variant_fox_and_dogs@,
            BoardVariant::FoxAndDogsMaze => self.variant_fox_and_dogs_maze@,
            BoardVariant::TheRedHunt => self.variant_the_red_hunt@,
        }
    }

    /// The subtitle of a board.
    pub open spec fn spec_variant_sub(&self, variant: BoardVariant) -> Seq<char> {
        match variant {
            BoardVariant::Classic => self.variant_classic_sub@,
            BoardVariant::RiverCrossing => self.variant_river_crossing_sub@,
            BoardVariant::FoxAndDogs => self.variant_fox_and_dogs_sub@,
            BoardVariant::FoxAndDogsMaze => self.variant_fox_and_dogs_maze_sub@,
            BoardVariant::TheRedHunt => self.variant_the_red_hunt_sub@,
        }
    }

    /// The name of a difficulty.
    pub fn difficulty_name(&self, difficulty: Difficulty) -> (r: &str)
        ensures
            r@ == self.spec_difficulty_name(difficulty),
    {
        match difficulty {
            Difficulty::Easy => self.difficulty_easy.as_str(),
            Difficulty::Medium => self.difficulty_medium.as_str(),
            Difficulty::Hard => self.difficulty_hard.as_str(),
        }
    }

    /// The name of a board.
    pub fn variant_name(&self, variant: BoardVariant) -> (r: &str)
        ensures
            r@ == self.spec_variant_name(variant),
    {
        match variant {
            BoardVariant::Classic => self.variant_classic.as_str(),
            BoardVariant::RiverCrossing => self.variant_river_crossing.as_str(),
            BoardVariant::FoxAndDogs => self.variant_fox_and_dogs.as_str(),
            BoardVariant::FoxAndDogsMaze => self.variant_fox_and_dogs_maze.as_str(),
            BoardVariant::TheRedHunt => self.variant_the_red_hunt.as_str(),
        }
    }

    /// The subtitle of a board.
    pub fn variant_sub(&self, variant: BoardVariant) -> (r: &str)
        ensures
            r@ == self.spec_variant_sub(variant),
    {
        match variant {
            BoardVariant::Classic => self.variant_classic_sub.as_str(),
            BoardVariant::RiverCrossing => self.variant_river_crossing_sub.as_str(),
            BoardVariant::FoxAndDogs => self.variant_fox_and_dogs_sub.as_str(),
            BoardVariant::FoxAndDogsMaze => self.variant_fox_and_dogs_maze_sub.as_str(),
            BoardVariant::TheRedHunt => self.variant_the_red_hunt_sub.as_str(),
        }
    }
}

impl LocaleStrings {
    /// The name of a difficulty in this translation.
    pub fn difficulty_name(&self, difficulty: Difficulty) -> (r: &str)
        ensures
            r@ == self.title_screen.spec_difficulty_name(difficulty),
    {
        self.title_screen.difficulty_name(difficulty)
    }

    /// The name of a board in this translation.
    pub fn variant_name(&self, variant: BoardVariant) -> (r: &str)
        ensures
            r@ == self.title_screen.spec_variant_name(variant),
    {
        self.title_screen.variant_name(variant)
    }

    /// The subtitle of a board in this translation.
    pub fn variant_sub(&self, variant: BoardVariant) -> (r: &str)
        ensures
            r@ == self.title_screen.spec_variant_sub(variant),
    {
        self.title_screen.variant_sub(variant)
    }
}

// ---------------------------------------------------------------------------
// Choosing a translation
// ---------------------------------------------------------------------------

/// The language part of a canonical tag: everything before the first `-`.
pub open spec fn lang_prefix(s: Seq<char>) -> Seq<char>
    decreases s.len(),
{
    if s.len() == 0 || s[0] == '-' {
        Seq::empty()
    } else {
        seq![s[0]] + lang_prefix(s.drop_first())
    }
}

/// Country codes used in place of a language code: `jp`, `cn`, `kr` and `br` stand
/// for `ja`, `zh`, `ko` and `pt`.
pub open spec fn base_language(prefix: Seq<char>) -> Seq<char> {
    if prefix == seq!['j', 'p'] {
        seq!['j', 'a']
    } else if prefix == seq!['c', 'n'] {
        seq!['z', 'h']
    } else if prefix == seq!['k', 'r'] {
        seq!['k', 'o']
    } else if prefix == seq!['b', 'r'] {
        seq!['p', 't']
    } else {
        prefix
    }
}

/// The tags of the translations, in order.
pub open spec fn locale_tags(locales: Seq<LocaleStrings>) -> Seq<Seq<char>> {
    locales.map_values(|l: LocaleStrings| l.locale@)
}

/// A translation whose tag has the canonical form `norm`.
pub open spec fn exact_match(norm: Seq<char>) -> spec_fn(Seq<char>) -> bool {
    |t: Seq<char>| normalize(t) == norm
}

/// A translation of the language `base`.
pub open spec fn prefix_match(base: Seq<char>) -> spec_fn(Seq<char>) -> bool {
    |t: Seq<char>| lang_prefix(normalize(t)) == base
}

/// Some tag satisfies `p`.
pub open spec fn any_match(tags: Seq<Seq<char>>, p: spec_fn(Seq<char>) -> bool) -> bool {
    exists|j: int| 0 <= j < tags.len() && #[trigger] p(tags[j])
}

/// `i` is the first tag that satisfies `p`.
pub open spec fn is_first_match(tags: Seq<Seq<char>>, p: spec_fn(Seq<char>) -> bool, i: int) -> bool {
    &&& 0 <= i < tags.len()
    &&& p(tags[i])
    &&& forall|j: int| 0 <= j < i ==> !#[trigger] p(tags[j])
}

/// The translation chosen for `tag` among translations tagged `tags` is the one at
/// `i`: the first whose tag has the same canonical form; else the first of the same
/// base language; else the first of all.
pub open spec fn resolves_to(tags: Seq<Seq<char>>, tag: Seq<char>, i: int) -> bool {
    let norm = normalize(tag);
    let base = base_language(lang_prefix(norm));
    if any_match(tags, exact_match(norm)) {
        is_first_match(tags, exact_match(norm), i)
    } else if base.len() > 0 && any_match(tags, prefix_match(base)) {
        is_first_match(tags, prefix_match(base), i)
    } else {
        i == 0
    }
}

/// The language part of canonical characters (see `lang_prefix`).
fn lang_prefix_chars(s: &Vec<char>) -> (r: Vec<char>)
    ensures
        r@ == lang_prefix(s@),
{
    let mut r: Vec<char> = Vec::new();
    let mut i: usize = 0;
    proof {
        assert(s@.skip(0) =~= s@);
        assert(r@ + lang_prefix(s@) =~= lang_prefix(s@));
    }
    while i < s.len() && s[i] != '-'
        invariant
            i <= s@.len(),
            r@ == s@.take(i as int),
            lang_prefix(s@) == r@ + lang_prefix(s@.skip(i as int)),
        decreases s@.len() - i,
    {
        let ghost rest = s@.skip(i as int);
        proof {
            assert(rest[0] == s@[i as int]);
            assert(rest.drop_first() =~= s@.skip(i + 1));
            assert(lang_prefix(rest) == seq![s@[i as int]] + lang_prefix(s@.skip(i + 1)));
            assert(s@.take(i + 1) =~= s@.take(i as int).push(s@[i as int]));
        }
        r.push(s[i]);
        proof {
            assert(r@ + lang_prefix(s@.skip(i + 1)) =~= s@.take(i as int) + (seq![s@[i as int]] + lang_prefix(
                s@.skip(i + 1),
            )));
        }
        i = i + 1;
    }
    proof {
        assert(lang_prefix(s@.skip(i as int)) =~= Seq::<char>::empty());
        assert(r@ + Seq::<char>::empty() =~= r@);
    }
    r
}

/// The base language of a language part (see `base_language`).
fn base_language_chars(p: Vec<char>) -> (r: Vec<char>)
    ensures
        r@ == base_language(p@),
{
    if p.len() == 2 {
        let a = p[0];
        let b = p[1];
        let mapped: Option<(char, char)> = if a == 'j' && b == 'p' {
            Some(('j', 'a'))
        } else if a == 'c' && b == 'n' {
            Some(('z', 'h'))
        } else if a == 'k' && b == 'r' {
            Some(('k', 'o'))
        } else if a == 'b' && b == 'r' {
            Some(('p', 't'))
        } else {
            None
        };
        match mapped {
            Some((x, y)) => {
                let r = vec![x, y];
                proof {
                    assert(r@ =~= seq![x, y]);
                    if a == 'j' && b == 'p' {
                        assert(p@ =~= seq!['j', 'p']);
                    } else if a == 'c' && b == 'n' {
                        assert(p@ =~= seq!['c', 'n']);
                    } else if a == 'k' && b == 'r' {
                        assert(p@ =~= seq!['k', 'r']);
                    } else {
                        assert(p@ =~= seq!['b', 'r']);
                    }
                }
                return r;
            },
            None => {
                proof {
                    assert(p@ != seq!['j', 'p'] && p@ != seq!['c', 'n'] && p@ != seq!['k', 'r'] && p@ != seq![
                        'b',
                        'r',
                    ]) by {
                        if p@ == seq!['j', 'p'] || p@ == seq!['c', 'n'] || p@ == seq!['k', 'r'] || p@ == seq![
                            'b',
                            'r',
                        ] {
                            assert(p@[0] == a && p@[1] == b);
                        }
                    }
                }
            },
        }
    }
    p
}

/// The index of the translation chosen for `tag` (see `resolves_to`): an exact match
/// of the canonical tag (`"ru-ru"` finds `"ru-RU"`), else the first translation of the
/// same language (`"ru"`, `"ru-kz"` and, by alias, `"jp"` for `"ja-JP"`), else the
/// first translation.
pub fn locale_index(locales: &[LocaleStrings], tag: &str) -> (r: usize)
    requires
        locales@.len() > 0,
    ensures
        resolves_to(locale_tags(locales@), tag@, r as int),
{
    let ghost tags = locale_tags(locales@);
    let tag_chars = str_chars(tag);
    let norm = normalize_chars(&tag_chars);
    let prefix = lang_prefix_chars(&norm);
    let base = base_language_chars(prefix);
    let mut norms: Vec<Vec<char>> = Vec::new();
    let mut j: usize = 0;
    while j < locales.len()
        invariant
            tags == locale_tags(locales@),
            j <= locales@.len(),
            norms@.len() == j,
            forall|q: int| 0 <= q < j ==> (#[trigger] norms@[q])@ == normalize(tags[q]),
        decreases locales@.len() - j,
    {
        let own = str_chars(locales[j].locale.as_str());
        norms.push(normalize_chars(&own));
        j = j + 1;
    }
    let ghost exact = exact_match(norm@);
    let mut i: usize = 0;
    while i < norms.len()
        invariant
            tags == locale_tags(locales@),
            norms@.len() == tags.len(),
            forall|q: int| 0 <= q < tags.len() ==> (#[trigger] norms@[q])@ == normalize(tags[q]),
            exact == exact_match(norm@),
            norm@ == normalize(tag@),
            i <= tags.len(),
            forall|q: int| 0 <= q < i ==> !#[trigger] exact(tags[q]),
        decreases tags.len() - i,
    {
        if chars_equal(&norms[i], &norm) {
            proof {
                assert(exact(tags[i as int]));
            }
            return i;
        }
        i = i + 1;
    }
    proof {
        assert(!any_match(tags, exact));
    }
    let ghost by_base = prefix_match(base@);
    if base.len() > 0 {
        let mut k: usize = 0;
        while k < norms.len()
            invariant
                tags == locale_tags(locales@),
                norms@.len() == tags.len(),
                forall|q: int| 0 <= q < tags.len() ==> (#[trigger] norms@[q])@ == normalize(tags[q]),
                by_base == prefix_match(base@),
                norm@ == normalize(tag@),
                base@ == base_language(lang_prefix(norm@)),
                base@.len() > 0,
                !any_match(tags, exact_match(norm@)),
                k <= tags.len(),
                forall|q: int| 0 <= q < k ==> !#[trigger] by_base(tags[q]),
            decreases tags.len() - k,
        {
            let own_prefix = lang_prefix_chars(&norms[k]);
            if chars_equal(&own_prefix, &base) {
                proof {
                    assert(by_base(tags[k as int]));
                }
                return k;
            }
            k = k + 1;
        }
        proof {
            assert(!any_match(tags, by_base));
        }
    }
    0
}

/// The translation chosen for `tag` (see `locale_index`).
pub fn resolve_locale<'a>(locales: &'a [LocaleStrings], tag: &str) -> (r: &'a LocaleStrings)
    requires
        locales@.len() > 0,
    ensures
        exists|i: int| resolves_to(locale_tags(locales@), tag@, i) && *r == locales@[i],
{
    let i = locale_index(locales, tag);
    &locales[i]
}

/// The choice of a translation is unique.
pub proof fn lemma_resolution_unique(tags: Seq<Seq<char>>, tag: Seq<char>, i: int, j: int)
    requires
        resolves_to(tags, tag, i),
        resolves_to(tags, tag, j),
    ensures
        i == j,
{
    let norm = normalize(tag);
    let base = base_language(lang_prefix(norm));
    let p = if any_match(tags, exact_match(norm)) {
        exact_match(norm)
    } else {
        prefix_match(base)
    };
    if i < j {
        assert(p(tags[i]));
    } else if j < i {
        assert(p(tags[j]));
    }
}

/// The choice of a translation is always one of them.
pub proof fn lemma_resolution_in_range(tags: Seq<Seq<char>>, tag: Seq<char>, i: int)
    requires
        tags.len() > 0,
        resolves_to(tags, tag, i),
    ensures
        0 <= i < tags.len(),
{
}

/// Tags with the same canonical form (differing in separators, case or surrounding
/// white space) choose the same translation.
pub proof fn lemma_resolution_by_normal_form(tags: Seq<Seq<char>>, t1: Seq<char>, t2: Seq<char>, i: int)
    requires
        normalize(t1) == normalize(t2),
    ensures
        resolves_to(tags, t1, i) <==> resolves_to(tags, t2, i),
{
}

/// A translation's own tag chooses a translation with the same canonical tag: the
/// first one that has it.
pub proof fn lemma_own_tag_resolves_same_form(tags: Seq<Seq<char>>, i: int, j: int)
    requires
        0 <= i < tags.len(),
        resolves_to(tags, tags[i], j),
    ensures
        normalize(tags[j]) == normalize(tags[i]),
        forall|k: int| 0 <= k < j ==> normalize(#[trigger] tags[k]) != normalize(tags[i]),
{
    let norm = normalize(tags[i]);
    assert(exact_match(norm)(tags[i]));
    assert(any_match(tags, exact_match(norm)));
    assert forall|k: int| 0 <= k < j implies normalize(#[trigger] tags[k]) != normalize(tags[i]) by {
        assert(!exact_match(norm)(tags[k]));
    }
}

/// Resolution sees only the canonical form: a tag chooses what its canonical form
/// chooses.
pub proof fn lemma_resolution_sees_normal_form(tags: Seq<Seq<char>>, tag: Seq<char>, i: int)
    ensures
        resolves_to(tags, tag, i) <==> resolves_to(tags, normalize(tag), i),
{
    lemma_normalize_idempotent(tag);
    lemma_resolution_by_normal_form(tags, tag, normalize(tag), i);
}

/// When no two translations share a canonical tag, each translation's own tag
/// chooses it.
pub proof fn lemma_own_tag_resolves(tags: Seq<Seq<char>>, i: int)
    requires
        0 <= i < tags.len(),
        forall|a: int, b: int|
            0 <= a < tags.len() && 0 <= b < tags.len() && a != b ==> normalize(#[trigger] tags[a])
                != normalize(#[trigger] tags[b]),
    ensures
        resolves_to(tags, tags[i], i),
{
    let norm = normalize(tags[i]);
    assert(exact_match(norm)(tags[i]));
    assert forall|j: int| 0 <= j < i implies !#[trigger] exact_match(norm)(tags[j]) by {
        assert(normalize(tags[j]) != normalize(tags[i]));
    }
}

// ---------------------------------------------------------------------------
// Filling in the statistics line
// ---------------------------------------------------------------------------

/// The decimal digit `d`.
pub open spec fn digit_char(d: int) -> char {
    (d + 48) as char
}

/// The decimal representation of `n`, without leading zeros.
pub open spec fn decimal(n: nat) -> Seq<char>
    decreases n,
{
    if n < 10 {
        seq![digit_char(n as int)]
    } else {
        decimal(n / 10).push(digit_char((n % 10) as int))
    }
}

/// The decimal digits of `n`.
pub fn decimal_chars(n: usize) -> (r: Vec<char>)
    ensures
        r@ == decimal(n as nat),
    decreases n,
{
    let d = (n % 10) as u8;
    let c = (48u8 + d) as char;
    if n < 10 {
        let r = vec![c];
        proof {
            assert(r@ =~= seq![c]);
        }
        r
    } else {
        let mut r = decimal_chars(n / 10);
        r.push(c);
        r
    }
}

/// `s` with every occurrence of `pat`, searched from the left without overlap,
/// replaced by `rep`.
pub open spec fn replace_all(s: Seq<char>, pat: Seq<char>, rep: Seq<char>) -> Seq<char>
    decreases s.len(),
{
    if s.len() == 0 {
        s
    } else if 0 < pat.len() <= s.len() && s.take(pat.len() as int) == pat {
        rep + replace_all(s.skip(pat.len() as int), pat, rep)
    } else {
        seq![s[0]] + replace_all(s.skip(1), pat, rep)
    }
}

/// `pat` occurs in `s` at `i`.
fn occurs_at(s: &Vec<char>, pat: &Vec<char>, i: usize) -> (r: bool)
    requires
        i <= s@.len(),
    ensures
        r == (pat@.len() <= s@.len() - i && s@.skip(i as int).take(pat@.len() as int) == pat@),
{
    if pat.len() > s.len() - i {
        return false;
    }
    let n = s.len();
    let mut j: usize = 0;
    while j < pat.len()
        invariant
            n == s@.len(),
            i <= s@.len(),
            pat@.len() <= s@.len() - i,
            j <= pat@.len(),
            forall|q: int| 0 <= q < j ==> s@[i + q] == pat@[q],
        decreases pat@.len() - j,
    {
        if s[i + j] != pat[j] {
            proof {
                assert(s@.skip(i as int).take(pat@.len() as int)[j as int] == s@[i + j]);
            }
            return false;
        }
        j = j + 1;
    }
    proof {
        assert(s@.skip(i as int).take(pat@.len() as int) =~= pat@);
    }
    true
}

/// `s` with every occurrence of `pat` replaced by `rep` (see `replace_all`).
pub fn replace_chars(s: &Vec<char>, pat: &Vec<char>, rep: &Vec<char>) -> (r: Vec<char>)
    requires
        pat@.len() > 0,
    ensures
        r@ == replace_all(s@, pat@, rep@),
{
    let mut r: Vec<char> = Vec::new();
    let mut i: usize = 0;
    proof {
        assert(s@.skip(0) =~= s@);
        assert(r@ + replace_all(s@, pat@, rep@) =~= replace_all(s@, pat@, rep@));
    }
    while i < s.len()
        invariant
            pat@.len() > 0,
            i <= s@.len(),
            r@ + replace_all(s@.skip(i as int), pat@, rep@) == replace_all(s@, pat@, rep@),
        decreases s@.len() - i,
    {
        let ghost t = s@.skip(i as int);
        let ghost before = r@;
        if occurs_at(s, pat, i) {
            let mut k: usize = 0;
            while k < rep.len()
                invariant
                    k <= rep@.len(),
                    r@ == before + rep@.take(k as int),
                decreases rep@.len() - k,
            {
                r.push(rep[k]);
                proof {
                    assert(rep@.take(k + 1) =~= rep@.take(k as int).push(rep@[k as int]));
                }
                k = k + 1;
            }
            proof {
                assert(rep@.take(rep@.len() as int) =~= rep@);
                assert(t.skip(pat@.len() as int) =~= s@.skip(i + pat@.len()));
                assert(replace_all(t, pat@, rep@) == rep@ + replace_all(t.skip(pat@.len() as int), pat@, rep@));
                assert(r@ + replace_all(s@.skip(i + pat@.len()), pat@, rep@) =~= before + replace_all(t, pat@, rep@));
            }
            i = i + pat.len();
        } else {
            r.push(s[i]);
            proof {
                assert(t[0] == s@[i as int]);
                assert(t.skip(1) =~= s@.skip(i + 1));
                assert(replace_all(t, pat@, rep@) == seq![t[0]] + replace_all(t.skip(1), pat@, rep@));
                assert(r@ + replace_all(s@.skip(i + 1), pat@, rep@) =~= before + replace_all(t, pat@, rep@));
            }
            i = i + 1;
        }
    }
    proof {
        assert(s@.skip(i as int) =~= Seq::<char>::empty());
        assert(r@ + Seq::<char>::empty() =~= r@);
    }
    r
}

/// The statistics line `template` filled in: `{turns}` becomes the turn count in
/// decimal, then `{difficulty}` the difficulty's name, then `{variant}` the board's.
pub open spec fn stats_line(template: Seq<char>, turns: nat, difficulty: Seq<char>, variant: Seq<char>) -> Seq<
    char,
> {
    replace_all(
        replace_all(replace_all(template, "{turns}"@, decimal(turns)), "{difficulty}"@, difficulty),
        "{variant}"@,
        variant,
    )
}

impl GameOverStrings {
    /// The statistics line of a finished match (see `stats_line`).
    pub fn format_stats(&self, turns: usize, difficulty: &str, variant: &str) -> (r: String)
        ensures
            r@ == stats_line(self.stats_template@, turns as nat, difficulty@, variant@),
    {
        proof {
            reveal_strlit("{turns}");
            reveal_strlit("{difficulty}");
            reveal_strlit("{variant}");
        }
        let template = str_chars(self.stats_template.as_str());
        let turns_pat = str_chars("{turns}");
        let difficulty_pat = str_chars("{difficulty}");
        let variant_pat = str_chars("{variant}");
        let step1 = replace_chars(&template, &turns_pat, &decimal_chars(turns));
        let step2 = replace_chars(&step1, &difficulty_pat, &str_chars(difficulty));
        let step3 = replace_chars(&step2, &variant_pat, &str_chars(variant));
        string_from_chars(&step3)
    }
}

// ---------------------------------------------------------------------------
// Canonical tags are fixed points
// ---------------------------------------------------------------------------

proof fn lemma_trim_start_shape(s: Seq<char>)
    ensures
        trim_start(s).len() == 0 || !white_space(trim_start(s)[0]),
    decreases s.len(),
{
    if s.len() > 0 && white_space(s[0]) {
        lemma_trim_start_shape(s.drop_first());
    }
}

proof fn lemma_trim_end_shape(s: Seq<char>)
    ensures
        trim_end(s) == s.take(trim_end(s).len() as int),
        trim_end(s).len() <= s.len(),
        trim_end(s).len() == 0 || !white_space(trim_end(s).last()),
    decreases s.len(),
{
    if s.len() > 0 && white_space(s.last()) {
        lemma_trim_end_shape(s.drop_last());
        assert(s.drop_last().take(trim_end(s).len() as int) =~= s.take(trim_end(s).len() as int));
    } else {
        assert(s.take(s.len() as int) =~= s);
    }
}

/// Neither end of `trim(s)` is white space.
proof fn lemma_trim_shape(s: Seq<char>)
    ensures
        trim(s).len() == 0 || (!white_space(trim(s)[0]) && !white_space(trim(s).last())),
{
    let t0 = trim_start(s);
    lemma_trim_start_shape(s);
    lemma_trim_end_shape(t0);
    if trim(s).len() > 0 {
        assert(trim(s)[0] == t0.take(trim(s).len() as int)[0]);
    }
}

/// A character in canonical form is white space exactly when the character it comes
/// from is, and canonical form leaves it alone.
proof fn lemma_canonical_char(c: char)
    ensures
        white_space(ascii_lower(unify_separator(c))) == white_space(c),
        ascii_lower(unify_separator(ascii_lower(unify_separator(c)))) == ascii_lower(unify_separator(c)),
{
}

/// Canonical tags are left alone by `normalize`: normalising twice is normalising once.
pub proof fn lemma_normalize_idempotent(tag: Seq<char>)
    ensures
        normalize(normalize(tag)) == normalize(tag),
{
    let t = trim(tag);
    let m = normalize(tag);
    lemma_trim_shape(tag);
    if m.len() > 0 {
        lemma_canonical_char(t[0]);
        lemma_canonical_char(t.last());
        assert(m[0] == ascii_lower(unify_separator(t[0])));
        assert(m.last() == ascii_lower(unify_separator(t.last())));
        assert(trim_start(m) == m);
        assert(trim_end(m) == m);
    } else {
        assert(trim(m) =~= m);
    }
    assert(trim(m) == m);
    assert forall|k: int| 0 <= k < m.len() implies #[trigger] ascii_lower(unify_separator(m[k])) == m[k] by {
        lemma_canonical_char(t[k]);
    }
    assert(normalize(m) =~= m);
}

/// What a canonical tag looks like: the trimmed tag character for character, with no
/// `_`, `+` or ASCII capital left, and no white space at either end.
pub proof fn lemma_normalize_shape(tag: Seq<char>)
    ensures
        normalize(tag).len() == trim(tag).len(),
        forall|i: int|
            0 <= i < normalize(tag).len() ==> #[trigger] normalize(tag)[i] == ascii_lower(
                unify_separator(trim(tag)[i]),
            ),
        forall|i: int|
            0 <= i < normalize(tag).len() ==> {
                let c = #[trigger] normalize(tag)[i];
                c != '_' && c != '+' && !('A' <= c <= 'Z')
            },
        normalize(tag).len() == 0 || (!white_space(normalize(tag)[0]) && !white_space(
            normalize(tag).last(),
        )),
{
    let t = trim(tag);
    let m = normalize(tag);
    lemma_trim_shape(tag);
    if m.len() > 0 {
        lemma_canonical_char(t[0]);
        lemma_canonical_char(t.last());
        assert(m.last() == m[m.len() - 1]);
    }
}

// ---------------------------------------------------------------------------
// The command line
// ---------------------------------------------------------------------------

/// The locale asked for on a command line: the first non-blank value of
/// `--lang <tag>`, `-l <tag>` or `--lang=<tag>`, trimmed. A flag with nothing after it
/// ends the search; a blank value is skipped.
pub open spec fn cli_locale(args: Seq<Seq<char>>) -> Option<Seq<char>>
    decreases args.len(),
{
    if args.len() == 0 {
        None
    } else {
        let a = args[0];
        if a == "--lang"@ || a == "-l"@ {
            if args.len() < 2 {
                None
            } else if trim(args[1]).len() > 0 {
                Some(trim(args[1]))
            } else {
                cli_locale(args.skip(2))
            }
        } else if a.len() >= 7 && a.take(7) == "--lang="@ && trim(a.skip(7)).len() > 0 {
            Some(trim(a.skip(7)))
        } else {
            cli_locale(args.skip(1))
        }
    }
}

/// The characters of the arguments.
pub open spec fn args_view(args: Seq<String>) -> Seq<Seq<char>> {
    args.map_values(|a: String| a@)
}

/// The characters of `s` from `from` on.
fn chars_from(s: &Vec<char>, from: usize) -> (r: Vec<char>)
    requires
        from <= s@.len(),
    ensures
        r@ == s@.skip(from as int),
{
    let mut r: Vec<char> = Vec::new();
    let mut i: usize = from;
    while i < s.len()
        invariant
            from <= i <= s@.len(),
            r@ == s@.subrange(from as int, i as int),
        decreases s@.len() - i,
    {
        r.push(s[i]);
        proof {
            assert(s@.subrange(from as int, i + 1) =~= s@.subrange(from as int, i as int).push(s@[i as int]));
        }
        i = i + 1;
    }
    proof {
        assert(r@ =~= s@.skip(from as int));
    }
    r
}

/// The locale tag given on the command line `args` (program name excluded), if any
/// (see `cli_locale`).
pub fn parse_cli_locale(args: &[String]) -> (r: Option<String>)
    ensures
        match cli_locale(args_view(args@)) {
            Some(v) => r is Some && r->0@ == v,
            None => r is None,
        },
{
    proof {
        reveal_strlit("--lang");
        reveal_strlit("-l");
        reveal_strlit("--lang=");
    }
    let ghost view = args_view(args@);
    let long_flag = str_chars("--lang");
    let short_flag = str_chars("-l");
    let inline_flag = str_chars("--lang=");
    let mut i: usize = 0;
    proof {
        assert(view.skip(0) =~= view);
    }
    while i < args.len()
        invariant
            view == args_view(args@),
            long_flag@ == "--lang"@,
            short_flag@ == "-l"@,
            inline_flag@ == "--lang="@,
            inline_flag@.len() == 7,
            i <= args@.len(),
            cli_locale(view) == cli_locale(view.skip(i as int)),
        decreases args@.len() - i,
    {
        let ghost rest = view.skip(i as int);
        let a = str_chars(args[i].as_str());
        proof {
            assert(rest[0] == a@);
        }
        if chars_equal(&a, &long_flag) || chars_equal(&a, &short_flag) {
            if i + 1 >= args.len() {
                return None;
            }
            let v = trim_chars(&str_chars(args[i + 1].as_str()));
            proof {
                assert(rest[1] == args@[i + 1]@);
            }
            if v.len() > 0 {
                return Some(string_from_chars(&v));
            }
            proof {
                assert(rest.skip(2) =~= view.skip(i + 2));
            }
            i = i + 2;
        } else {
            if a.len() >= 7 && occurs_at(&a, &inline_flag, 0) {
                let v = trim_chars(&chars_from(&a, 7));
                proof {
                    assert(a@.skip(0) =~= a@);
                }
                if v.len() > 0 {
                    return Some(string_from_chars(&v));
                }
            }
            proof {
                assert(a@.skip(0) =~= a@);
                assert(rest.skip(1) =~= view.skip(i + 1));
            }
            i = i + 1;
        }
    }
    None
}

// ---------------------------------------------------------------------------
// The system locale
// ---------------------------------------------------------------------------

/// `s` up to its first `.` or `:` (the encoding or modifier of a POSIX locale name).
pub open spec fn before_codeset(s: Seq<char>) -> Seq<char>
    decreases s.len(),
{
    if s.len() == 0 || s[0] == '.' || s[0] == ':' {
        Seq::empty()
    } else {
        seq![s[0]] + before_codeset(s.drop_first())
    }
}

/// The locale named by the value of a locale environment variable: its trimmed
/// language part, unless empty or one of the plain `C` and `POSIX` locales.
pub open spec fn env_locale(value: Seq<char>) -> Option<Seq<char>> {
    let clean = before_codeset(trim(value));
    if clean.len() > 0 && clean != "C"@ && clean != "POSIX"@ {
        Some(clean)
    } else {
        None
    }
}

/// The first of the variables' values (in order, unset ones as `None`) that names a
/// locale.
pub open spec fn first_env_locale(values: Seq<Option<Seq<char>>>) -> Option<Seq<char>>
    decreases values.len(),
{
    if values.len() == 0 {
        None
    } else {
        match values[0] {
            Some(v) => match env_locale(v) {
                Some(l) => Some(l),
                None => first_env_locale(values.drop_first()),
            },
            None => first_env_locale(values.drop_first()),
        }
    }
}

/// The locale tag the game starts with: the one given on the command line, else the
/// operating system's, else the first one named by the environment, else `en-US`.
pub open spec fn detected_tag(
    args: Seq<Seq<char>>,
    os_locale: Option<Seq<char>>,
    env_values: Seq<Option<Seq<char>>>,
) -> Seq<char> {
    match cli_locale(args) {
        Some(t) => t,
        None => match os_locale {
            Some(t) => t,
            None => match first_env_locale(env_values) {
                Some(t) => t,
                None => "en-US"@,
            },
        },
    }
}

/// The characters of an optional string.
pub open spec fn option_view(v: Option<String>) -> Option<Seq<char>> {
    match v {
        Some(s) => Some(s@),
        None => None,
    }
}

/// The characters of optional strings.
pub open spec fn options_view(values: Seq<Option<String>>) -> Seq<Option<Seq<char>>> {
    values.map_values(|v: Option<String>| option_view(v))
}

/// The locale named by one locale environment variable's value (see `env_locale`).
pub fn locale_from_env_value(value: &str) -> (r: Option<String>)
    ensures
        match env_locale(value@) {
            Some(l) => r is Some && r->0@ == l,
            None => r is None,
        },
{
    proof {
        reveal_strlit("C");
        reveal_strlit("POSIX");
    }
    let t = trim_chars(&str_chars(value));
    let mut clean: Vec<char> = Vec::new();
    let mut i: usize = 0;
    proof {
        assert(t@.skip(0) =~= t@);
        assert(clean@ + before_codeset(t@) =~= before_codeset(t@));
    }
    while i < t.len() && t[i] != '.' && t[i] != ':'
        invariant
            i <= t@.len(),
            clean@ == t@.take(i as int),
            before_codeset(t@) == clean@ + before_codeset(t@.skip(i as int)),
        decreases t@.len() - i,
    {
        let ghost rest = t@.skip(i as int);
        proof {
            assert(rest[0] == t@[i as int]);
            assert(rest.drop_first() =~= t@.skip(i + 1));
            assert(t@.take(i + 1) =~= t@.take(i as int).push(t@[i as int]));
        }
        clean.push(t[i]);
        proof {
            assert(clean@ + before_codeset(t@.skip(i + 1)) =~= t@.take(i as int) + (seq![t@[i as int]]
                + before_codeset(t@.skip(i + 1))));
        }
        i = i + 1;
    }
    proof {
        assert(before_codeset(t@.skip(i as int)) =~= Seq::<char>::empty());
        assert(clean@ + Seq::<char>::empty() =~= clean@);
    }
    let c_locale = str_chars("C");
    let posix_locale = str_chars("POSIX");
    if clean.len() > 0 && !chars_equal(&clean, &c_locale) && !chars_equal(&clean, &posix_locale) {
        Some(string_from_chars(&clean))
    } else {
        None
    }
}

/// The locale tag the game starts with (see `detected_tag`), from the command line
/// `args` (program name excluded), the operating system's locale and the values of
/// `LANGUAGE`, `LC_ALL`, `LC_MESSAGES` and `LANG`, in that order.
pub fn detect_locale_tag(args: &[String], os_locale: Option<String>, env_values: &[Option<String>]) -> (r: String)
    ensures
        r@ == detected_tag(args_view(args@), option_view(os_locale), options_view(env_values@)),
{
    proof {
        reveal_strlit("en-US");
    }
    match parse_cli_locale(args) {
        Some(t) => return t,
        None => {},
    }
    match os_locale {
        Some(t) => return t,
        None => {},
    }
    let ghost vals = options_view(env_values@);
    let mut i: usize = 0;
    proof {
        assert(vals.skip(0) =~= vals);
    }
    while i < env_values.len()
        invariant
            vals == options_view(env_values@),
            cli_locale(args_view(args@)) is None,
            option_view(os_locale) is None,
            i <= env_values@.len(),
            first_env_locale(vals) == first_env_locale(vals.skip(i as int)),
        decreases env_values@.len() - i,
    {
        let ghost rest = vals.skip(i as int);
        proof {
            assert(rest.drop_first() =~= vals.skip(i + 1));
        }
        match &env_values[i] {
            Some(v) => {
                proof {
                    assert(rest[0] == Some(v@));
                }
                match locale_from_env_value(v.as_str()) {
                    Some(l) => return l,
                    None => {},
                }
            },
            None => {
                proof {
                    assert(rest[0] is None);
                }
            },
        }
        i = i + 1;
    }
    proof {
        assert(vals.skip(i as int) =~= Seq::<Option<Seq<char>>>::empty());
    }
    string_from_chars(&str_chars("en-US"))
}

} // verus!
