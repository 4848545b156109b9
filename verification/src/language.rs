//! Guessing the language of a thread from its stop words and accented letters,
//! and the language requirement that the summary prompt carries.
use vstd::prelude::*;
use crate::domain::Message;
use crate::ordered::chars_view;
use crate::rows::ThreadSummaryRow;
use crate::summary_text::first_with_ts;
use crate::text::{chars_eq, chars_of, extend_chars, extend_str, str_eq, string_of};

verus! {

/// The lowercase mapping of `c` (what `char::to_lowercase` yields).
pub uninterp spec fn unicode_lowercase(c: char) -> Seq<char>;

/// Whether `c` has the Unicode `Alphabetic` property (what `char::is_alphabetic`
/// decides).
pub uninterp spec fn unicode_alphabetic(c: char) -> bool;

/// The ASCII capital letters `A` to `Z`.
pub open spec fn ascii_upper(c: char) -> bool {
    'A' <= c <= 'Z'
}

/// The ASCII letters, capital and small.
pub open spec fn ascii_letter(c: char) -> bool {
    ascii_upper(c) || 'a' <= c <= 'z'
}

/// `char::to_lowercase`, collected; the contract names the result. Of ASCII it
/// states what Unicode's mapping gives: `A` to `Z` become `a` to `z`, and every
/// other ASCII character maps to itself.
#[verifier::external_body]
fn lowercase_of(c: char) -> (r: Vec<char>)
    ensures
        r@ == unicode_lowercase(c),
        ascii_upper(c) ==> r@ == seq![(c as int + 32) as char],
        c <= '\x7f' && !ascii_upper(c) ==> r@ == seq![c],
{
    c.to_lowercase().collect()
}

/// `char::is_alphabetic`; the contract names the result. Of ASCII it states what
/// the `Alphabetic` property gives: the letters are alphabetic, and no other
/// ASCII character is.
#[verifier::external_body]
fn is_alphabetic(c: char) -> (r: bool)
    ensures
        r == unicode_alphabetic(c),
        c <= '\x7f' ==> r == ascii_letter(c),
{
    c.is_alphabetic()
}

/// How many messages of a thread the language guess reads.
pub const MAX_LANGUAGE_MESSAGES: usize = 40;

/// The languages that can be guessed, in the order they are tried.
#[derive(Debug, Clone, Copy, PartialEq, Eq, Structural)]
pub enum Language {
    English,
    French,
    Spanish,
    German,
    Italian,
    Portuguese,
}

/// A guessable language: its code and its name.
#[derive(Debug, Clone, Copy, PartialEq, Eq)]
pub struct LanguageHint {
    pub code: &'static str,
    pub label: &'static str,
    pub language: Language,
}

/// A guessed language and how strongly the text points to it.
#[derive(Debug, Clone, Copy, PartialEq, Eq)]
pub struct LanguageGuess {
    pub hint: LanguageHint,
    pub score: u128,
}

pub open spec fn all_languages() -> Seq<Language> {
    seq![Language::English, Language::French, Language::Spanish, Language::German, Language::Italian, Language::Portuguese]
}

pub open spec fn code_of(l: Language) -> Seq<char> {
    match l {
        Language::English => "en"@,
        Language::French => "fr"@,
        Language::Spanish => "es"@,
        Language::German => "de"@,
        Language::Italian => "it"@,
        Language::Portuguese => "pt"@,
    }
}

pub open spec fn label_of(l: Language) -> Seq<char> {
    match l {
        Language::English => "English"@,
        Language::French => "French"@,
        Language::Spanish => "Spanish"@,
        Language::German => "German"@,
        Language::Italian => "Italian"@,
        Language::Portuguese => "Portuguese"@,
    }
}

/// A hint is the one of its language.
pub open spec fn hint_of(h: LanguageHint, l: Language) -> bool {
    h.language == l && h.code@ == code_of(l) && h.label@ == label_of(l)
}

pub fn language_hint(l: Language) -> (r: LanguageHint)
    ensures
        hint_of(r, l),
{
    match l {
        Language::English => LanguageHint { code: "en", label: "English", language: l },
        Language::French => LanguageHint { code: "fr", label: "French", language: l },
        Language::Spanish => LanguageHint { code: "es", label: "Spanish", language: l },
        Language::German => LanguageHint { code: "de", label: "German", language: l },
        Language::Italian => LanguageHint { code: "it", label: "Italian", language: l },
        Language::Portuguese => LanguageHint { code: "pt", label: "Portuguese", language: l },
    }
}

/// The stop words of each language.
pub open spec fn stopwords(l: Language) -> Seq<Seq<char>> {
    match l {
        Language::English => seq![
            "the"@, "and"@, "to"@, "for"@, "with"@, "that"@, "this"@, "from"@, "not"@, "you"@,
            "are"@, "is"@, "we"@, "it"@, "on"@, "in"@, "should"@, "can"@,
        ],
        Language::French => seq![
            "le"@, "la"@, "les"@, "des"@, "une"@, "un"@, "et"@, "pour"@, "avec"@, "que"@, "qui"@,
            "est"@, "dans"@, "sur"@, "pas"@, "plus"@, "nous"@, "vous"@, "ce"@, "cette"@, "ces"@,
            "de"@, "du"@,
        ],
        Language::Spanish => seq![
            "el"@, "la"@, "los"@, "las"@, "una"@, "un"@, "y"@, "para"@, "con"@, "que"@, "como"@,
            "por"@, "del"@, "está"@, "esta"@, "pero"@, "más"@, "porque"@,
        ],
        Language::German => seq![
            "der"@, "die"@, "das"@, "und"@, "mit"@, "eine"@, "ein"@, "ist"@, "nicht"@, "für"@,
            "den"@, "dem"@, "auf"@, "wie"@, "wir"@, "ihr"@,
        ],
        Language::Italian => seq![
            "il"@, "lo"@, "la"@, "gli"@, "le"@, "un"@, "una"@, "e"@, "per"@, "con"@, "che"@,
            "non"@, "più"@, "come"@, "del"@, "della"@, "nel"@,
        ],
        Language::Portuguese => seq![
            "o"@, "a"@, "os"@, "as"@, "uma"@, "um"@, "e"@, "para"@, "com"@, "que"@, "não"@,
            "por"@, "mais"@, "esta"@, "está"@, "dos"@, "das"@,
        ],
    }
}

/// The accented letters and signs that point to each language.
pub open spec fn markers(l: Language) -> Seq<char> {
    match l {
        Language::English => seq![],
        Language::French => seq!['à', 'â', 'ç', 'é', 'è', 'ê', 'ë', 'î', 'ï', 'ô', 'ù', 'û', 'ü', 'œ'],
        Language::Spanish => seq!['á', 'é', 'í', 'ó', 'ú', 'ñ', '¿', '¡'],
        Language::German => seq!['ä', 'ö', 'ü', 'ß'],
        Language::Italian => seq!['à', 'è', 'é', 'ì', 'í', 'ò', 'ó', 'ù'],
        Language::Portuguese => seq!['ã', 'õ', 'á', 'â', 'ê', 'ç', 'é', 'í', 'ó', 'ú'],
    }
}

fn stopword_list(l: Language) -> (r: Vec<&'static str>)
    ensures
        r@.map_values(|s: &str| s@) == stopwords(l),
{
    let r = match l {
        Language::English => vec![
            "the", "and", "to", "for", "with", "that", "this", "from", "not", "you", "are", "is",
            "we", "it", "on", "in", "should", "can",
        ],
        Language::French => vec![
            "le", "la", "les", "des", "une", "un", "et", "pour", "avec", "que", "qui", "est",
            "dans", "sur", "pas", "plus", "nous", "vous", "ce", "cette", "ces", "de", "du",
        ],
        Language::Spanish => vec![
            "el", "la", "los", "las", "una", "un", "y", "para", "con", "que", "como", "por",
            "del", "está", "esta", "pero", "más", "porque",
        ],
        Language::German => vec![
            "der", "die", "das", "und", "mit", "eine", "ein", "ist", "nicht", "für", "den", "dem",
            "auf", "wie", "wir", "ihr",
        ],
        Language::Italian => vec![
            "il", "lo", "la", "gli", "le", "un", "una", "e", "per", "con", "che", "non", "più",
            "come", "del", "della", "nel",
        ],
        Language::Portuguese => vec![
            "o", "a", "os", "as", "uma", "um", "e", "para", "com", "que", "não", "por", "mais",
            "esta", "está", "dos", "das",
        ],
    };
    proof {
        assert(r@.map_values(|s: &str| s@) =~= stopwords(l));
    }
    r
}

fn marker_list(l: Language) -> (r: Vec<char>)
    ensures
        r@ == markers(l),
{
    let r = match l {
        Language::English => vec![],
        Language::French => vec!['à', 'â', 'ç', 'é', 'è', 'ê', 'ë', 'î', 'ï', 'ô', 'ù', 'û', 'ü', 'œ'],
        Language::Spanish => vec!['á', 'é', 'í', 'ó', 'ú', 'ñ', '¿', '¡'],
        Language::German => vec!['ä', 'ö', 'ü', 'ß'],
        Language::Italian => vec!['à', 'è', 'é', 'ì', 'í', 'ò', 'ó', 'ù'],
        Language::Portuguese => vec!['ã', 'õ', 'á', 'â', 'ê', 'ç', 'é', 'í', 'ó', 'ú'],
    };
    proof {
        assert(r@ =~= markers(l));
    }
    r
}

/// The text lowercased character by character.
pub open spec fn lowered(s: Seq<char>) -> Seq<char>
    decreases s.len(),
{
    if s.len() == 0 {
        Seq::empty()
    } else {
        lowered(s.drop_last()) + unicode_lowercase(s.last())
    }
}

fn lowered_chars(text: &str) -> (r: Vec<char>)
    ensures
        r@ == lowered(text@),
{
    let cs = chars_of(text);
    let mut out: Vec<char> = Vec::new();
    let mut i: usize = 0;
    proof {
        assert(cs@.take(0) =~= Seq::<char>::empty());
    }
    while i < cs.len()
        invariant
            i <= cs.len(),
            out@ == lowered(cs@.take(i as int)),
        decreases cs.len() - i,
    {
        proof {
            assert(cs@.take(i + 1).drop_last() =~= cs@.take(i as int));
        }
        let l = lowercase_of(cs[i]);
        extend_chars(&mut out, &l);
        i = i + 1;
    }
    proof {
        assert(cs@.take(cs@.len() as int) =~= cs@);
    }
    out
}

/// The words met so far and the word being read, splitting at every character
/// that is not alphabetic.
pub open spec fn token_state(s: Seq<char>) -> (Seq<Seq<char>>, Seq<char>)
    decreases s.len(),
{
    if s.len() == 0 {
        (Seq::empty(), Seq::empty())
    } else {
        let (done, cur) = token_state(s.drop_last());
        let c = s.last();
        if unicode_alphabetic(c) {
            (done, cur.push(c))
        } else if cur.len() > 0 {
            (done.push(cur), Seq::empty())
        } else {
            (done, Seq::empty())
        }
    }
}

/// The non-empty runs of alphabetic characters of `s`, in order.
pub open spec fn tokens(s: Seq<char>) -> Seq<Seq<char>> {
    let (done, cur) = token_state(s);
    if cur.len() > 0 { done.push(cur) } else { done }
}

fn tokens_of(s: &Vec<char>) -> (r: Vec<Vec<char>>)
    ensures
        chars_view(r@) == tokens(s@),
{
    let mut done: Vec<Vec<char>> = Vec::new();
    let mut cur: Vec<char> = Vec::new();
    let mut i: usize = 0;
    proof {
        assert(s@.take(0) =~= Seq::<char>::empty());
        assert(chars_view(done@) =~= Seq::<Seq<char>>::empty());
    }
    while i < s.len()
        invariant
            i <= s.len(),
            (chars_view(done@), cur@) == token_state(s@.take(i as int)),
        decreases s.len() - i,
    {
        proof {
            assert(s@.take(i + 1).drop_last() =~= s@.take(i as int));
        }
        let c = s[i];
        if is_alphabetic(c) {
            cur.push(c);
        } else if cur.len() > 0 {
            let ghost d = chars_view(done@);
            let ghost cu = cur@;
            let w = cur;
            done.push(w);
            cur = Vec::new();
            proof {
                assert(chars_view(done@) =~= d.push(cu));
            }
        } else {
        }
        i = i + 1;
    }
    proof {
        assert(s@.take(s@.len() as int) =~= s@);
    }
    if cur.len() > 0 {
        let ghost d = chars_view(done@);
        let ghost cu = cur@;
        done.push(cur);
        proof {
            assert(chars_view(done@) =~= d.push(cu));
        }
    }
    done
}

/// How many of `toks` are among `words`.
pub open spec fn stopword_score(toks: Seq<Seq<char>>, words: Seq<Seq<char>>) -> nat
    decreases toks.len(),
{
    if toks.len() == 0 {
        0
    } else {
        stopword_score(toks.drop_last(), words) + if words.contains(toks.last()) { 1nat } else { 0nat }
    }
}

/// How many characters of `s` are among `marks`.
pub open spec fn marker_score(s: Seq<char>, marks: Seq<char>) -> nat
    decreases s.len(),
{
    if s.len() == 0 {
        0
    } else {
        marker_score(s.drop_last(), marks) + if marks.contains(s.last()) { 1nat } else { 0nat }
    }
}

/// How strongly the lowercased text `low` points to language `l`: one point per
/// stop word, two per marker character.
pub open spec fn language_score(low: Seq<char>, l: Language) -> nat {
    stopword_score(tokens(low), stopwords(l)) + 2 * marker_score(low, markers(l))
}

fn is_among_words(w: &Vec<char>, words: &Vec<&'static str>) -> (r: bool)
    ensures
        r == words@.map_values(|s: &str| s@).contains(w@),
{
    let mut i: usize = 0;
    while i < words.len()
        invariant
            i <= words.len(),
            forall|j: int| 0 <= j < i ==> (#[trigger] words@[j])@ != w@,
        decreases words.len() - i,
    {
        let x = chars_of(words[i]);
        if chars_eq(&x, w) {
            proof {
                assert(words@.map_values(|s: &str| s@)[i as int] == w@);
            }
            return true;
        }
        i = i + 1;
    }
    proof {
        if words@.map_values(|s: &str| s@).contains(w@) {
            let ws = words@.map_values(|s: &str| s@);
            let j = choose|j: int| 0 <= j < ws.len() && #[trigger] ws[j] == w@;
            assert(words@[j]@ == w@);
        }
    }
    false
}

fn is_among_chars(c: char, marks: &Vec<char>) -> (r: bool)
    ensures
        r == marks@.contains(c),
{
    let mut i: usize = 0;
    while i < marks.len()
        invariant
            i <= marks.len(),
            forall|j: int| 0 <= j < i ==> marks@[j] != c,
        decreases marks.len() - i,
    {
        if marks[i] == c {
            return true;
        }
        i = i + 1;
    }
    false
}

fn score_language(low: &Vec<char>, toks: &Vec<Vec<char>>, l: Language) -> (r: u128)
    requires
        chars_view(toks@) == tokens(low@),
    ensures
        r == language_score(low@, l),
        r <= 3 * (usize::MAX as int),
{
    let words = stopword_list(l);
    let marks = marker_list(l);
    let mut stop: u128 = 0;
    let mut i: usize = 0;
    proof {
        assert(chars_view(toks@).take(0) =~= Seq::<Seq<char>>::empty());
    }
    while i < toks.len()
        invariant
            i <= toks.len(),
            words@.map_values(|s: &str| s@) == stopwords(l),
            stop == stopword_score(chars_view(toks@).take(i as int), stopwords(l)),
            stop <= i,
        decreases toks.len() - i,
    {
        proof {
            assert(chars_view(toks@).take(i + 1).drop_last() =~= chars_view(toks@).take(i as int));
            assert(chars_view(toks@).take(i + 1).last() == toks@[i as int]@);
        }
        if is_among_words(&toks[i], &words) {
            stop = stop + 1;
        }
        i = i + 1;
    }
    proof {
        assert(chars_view(toks@).take(toks@.len() as int) =~= chars_view(toks@));
    }
    let mut mark: u128 = 0;
    let mut k: usize = 0;
    proof {
        assert(low@.take(0) =~= Seq::<char>::empty());
    }
    while k < low.len()
        invariant
            k <= low.len(),
            marks@ == markers(l),
            mark == marker_score(low@.take(k as int), markers(l)),
            mark <= k,
        decreases low.len() - k,
    {
        proof {
            assert(low@.take(k + 1).drop_last() =~= low@.take(k as int));
        }
        if is_among_chars(low[k], &marks) {
            mark = mark + 1;
        }
        k = k + 1;
    }
    proof {
        assert(low@.take(low@.len() as int) =~= low@);
    }
    stop + 2 * mark
}

/// The best and second-best scores over `langs`, in the order tried: a
/// language scoring nothing is passed over; one scoring more than the best so
/// far takes its place (the former best score becoming the second); else its
/// score may raise the second.
pub open spec fn guess_state(low: Seq<char>, langs: Seq<Language>) -> (Option<(Language, nat)>, nat)
    decreases langs.len(),
{
    if langs.len() == 0 {
        (None, 0)
    } else {
        let (best, second) = guess_state(low, langs.drop_last());
        let l = langs.last();
        let s = language_score(low, l);
        if s == 0 {
            (best, second)
        } else {
            match best {
                None => (Some((l, s)), second),
                Some((bl, bs)) => if s > bs {
                    (Some((l, s)), bs)
                } else if s > second {
                    (best, s)
                } else {
                    (best, second)
                },
            }
        }
    }
}

/// `detect_language_guess`: the best-scoring language, kept only when it
/// scores at least two and strictly more than any other.
pub open spec fn language_guess(text: Seq<char>) -> Option<(Language, nat)> {
    let (best, second) = guess_state(lowered(text), all_languages());
    match best {
        Some((l, s)) => if s >= 2 && s > second { Some((l, s)) } else { None },
        None => None,
    }
}

/// A guess matches the spec's `(language, score)`.
pub open spec fn guess_is(g: Option<LanguageGuess>, want: Option<(Language, nat)>) -> bool {
    match (g, want) {
        (Some(x), Some((l, s))) => hint_of(x.hint, l) && x.score == s,
        (None, None) => true,
        _ => false,
    }
}

fn language_at(i: usize) -> (r: Language)
    requires
        i < 6,
    ensures
        r == all_languages()[i as int],
{
    if i == 0 {
        Language::English
    } else if i == 1 {
        Language::French
    } else if i == 2 {
        Language::Spanish
    } else if i == 3 {
        Language::German
    } else if i == 4 {
        Language::Italian
    } else {
        Language::Portuguese
    }
}

pub fn detect_language_guess(text: &str) -> (r: Option<LanguageGuess>)
    ensures
        guess_is(r, language_guess(text@)),
        r matches Some(g) ==> g.score <= 3 * (usize::MAX as int),
{
    let low = lowered_chars(text);
    let toks = tokens_of(&low);
    let mut best: Option<LanguageGuess> = None;
    let mut second: u128 = 0;
    let mut i: usize = 0;
    proof {
        assert(all_languages().take(0) =~= Seq::<Language>::empty());
    }
    while i < 6
        invariant
            i <= 6,
            chars_view(toks@) == tokens(low@),
            low@ == lowered(text@),
            ({
                let (b, sc) = guess_state(low@, all_languages().take(i as int));
                &&& guess_is(best, b)
                &&& second == sc
            }),
            best matches Some(g) ==> g.score <= 3 * (usize::MAX as int),
        decreases 6 - i,
    {
        proof {
            assert(all_languages().take(i + 1).drop_last() =~= all_languages().take(i as int));
        }
        let l = language_at(i);
        let score = score_language(&low, &toks, l);
        if score != 0 {
            match best {
                None => {
                    best = Some(LanguageGuess { hint: language_hint(l), score });
                },
                Some(g) => {
                    if score > g.score {
                        second = g.score;
                        best = Some(LanguageGuess { hint: language_hint(l), score });
                    } else if score > second {
                        second = score;
                    }
                },
            }
        }
        i = i + 1;
    }
    proof {
        assert(all_languages().take(6) =~= all_languages());
    }
    match best {
        Some(g) => {
            if g.score >= 2 && g.score > second {
                Some(g)
            } else {
                None
            }
        },
        None => None,
    }
}

/// The texts of `msgs` joined by line feeds.
pub open spec fn joined_texts(msgs: Seq<Message>) -> Seq<char>
    decreases msgs.len(),
{
    if msgs.len() == 0 {
        Seq::empty()
    } else if msgs.len() == 1 {
        msgs[0].text@
    } else {
        joined_texts(msgs.drop_last()) + seq!['\n'] + msgs.last().text@
    }
}

fn transcript_text(messages: &[Message], limit: usize) -> (r: Vec<char>)
    ensures
        r@ == joined_texts(messages@.take(if messages@.len() < limit { messages@.len() as int } else { limit as int })),
{
    let n: usize = if messages.len() < limit { messages.len() } else { limit };
    let mut out: Vec<char> = Vec::new();
    let mut i: usize = 0;
    proof {
        assert(messages@.take(0) =~= Seq::<Message>::empty());
    }
    while i < n
        invariant
            i <= n,
            n <= messages@.len(),
            out@ == joined_texts(messages@.take(i as int)),
        decreases n - i,
    {
        proof {
            assert(messages@.take(i + 1).drop_last() =~= messages@.take(i as int));
        }
        if i > 0 {
            out.push('\n');
        }
        extend_str(&mut out, messages[i].text.as_str());
        proof {
            if i == 0 {
                assert(messages@.take(1)[0] == messages@[0]);
                assert(out@ =~= joined_texts(messages@.take(1)));
            } else {
                assert(out@ =~= joined_texts(messages@.take(i + 1)));
            }
        }
        i = i + 1;
    }
    out
}

/// How the root's guess and the transcript's guess combine: the root's
/// language when both agree, when only the root has one, or when the root's
/// score is at most one below the transcript's; else the transcript's.
pub open spec fn combined_language(root: Option<(Language, nat)>, transcript: Option<(Language, nat)>) -> Option<Language> {
    match (root, transcript) {
        (Some((rl, rs)), Some((tl, ts))) => if rl == tl || rs + 1 >= ts { Some(rl) } else { Some(tl) },
        (Some((rl, _)), None) => Some(rl),
        (None, Some((tl, _))) => Some(tl),
        (None, None) => None,
    }
}

/// `detect_thread_language`: the guess for the root message (found by the
/// summary's root timestamp) combined with the guess for the first
/// `MAX_LANGUAGE_MESSAGES` messages joined by line feeds.
pub open spec fn thread_language(root_ts: Seq<char>, msgs: Seq<Message>) -> Option<Language> {
    let root = match first_with_ts(msgs, root_ts) {
        Some(m) => language_guess(m.text@),
        None => None,
    };
    let n = if msgs.len() < MAX_LANGUAGE_MESSAGES { msgs.len() as int } else { MAX_LANGUAGE_MESSAGES as int };
    combined_language(root, language_guess(joined_texts(msgs.take(n))))
}

/// The language of a guess, without its score.
pub open spec fn guessed_language(g: Option<(Language, nat)>) -> Option<Language> {
    match g {
        Some((l, _)) => Some(l),
        None => None,
    }
}

/// The guess for the root message of thread `root_ts` among `msgs`: none when
/// the root is not among them.
pub open spec fn root_guess(root_ts: Seq<char>, msgs: Seq<Message>) -> Option<(Language, nat)> {
    match first_with_ts(msgs, root_ts) {
        Some(m) => language_guess(m.text@),
        None => None,
    }
}

/// The guess for the first `MAX_LANGUAGE_MESSAGES` messages joined by line feeds.
pub open spec fn transcript_guess(msgs: Seq<Message>) -> Option<(Language, nat)> {
    let n = if msgs.len() < MAX_LANGUAGE_MESSAGES { msgs.len() as int } else { MAX_LANGUAGE_MESSAGES as int };
    language_guess(joined_texts(msgs.take(n)))
}

/// The thread's language always comes from a guess: without a guess for the
/// root it is the transcript's, without one for the transcript it is the
/// root's, when both guess the same language it is that one, it is one of the
/// two guessed languages, and there is none only when neither text gives one.
pub proof fn lemma_thread_language_follows_guesses(root_ts: Seq<char>, msgs: Seq<Message>)
    ensures
        root_guess(root_ts, msgs) is None ==> thread_language(root_ts, msgs) == guessed_language(transcript_guess(msgs)),
        transcript_guess(msgs) is None ==> thread_language(root_ts, msgs) == guessed_language(root_guess(root_ts, msgs)),
        guessed_language(root_guess(root_ts, msgs)) is Some && guessed_language(root_guess(root_ts, msgs))
            == guessed_language(transcript_guess(msgs)) ==> thread_language(root_ts, msgs) == guessed_language(
            transcript_guess(msgs),
        ),
        thread_language(root_ts, msgs) is Some ==> thread_language(root_ts, msgs) == guessed_language(root_guess(root_ts, msgs))
            || thread_language(root_ts, msgs) == guessed_language(transcript_guess(msgs)),
        thread_language(root_ts, msgs) is None <==> root_guess(root_ts, msgs) is None && transcript_guess(msgs) is None,
{
}

/// A hint matches the spec's language.
pub open spec fn hint_is(h: Option<LanguageHint>, want: Option<Language>) -> bool {
    match (h, want) {
        (Some(x), Some(l)) => hint_of(x, l),
        (None, None) => true,
        _ => false,
    }
}

pub fn detect_thread_language(summary: &ThreadSummaryRow, messages: &[Message]) -> (r: Option<LanguageHint>)
    ensures
        hint_is(r, thread_language(summary.root_ts@, messages@)),
        root_guess(summary.root_ts@, messages@) is None ==> hint_is(r, guessed_language(transcript_guess(messages@))),
        transcript_guess(messages@) is None ==> hint_is(r, guessed_language(root_guess(summary.root_ts@, messages@))),
{
    proof {
        lemma_thread_language_follows_guesses(summary.root_ts@, messages@);
    }
    let root_guess = match crate::summary_text::find_ts(messages, summary.root_ts.as_str()) {
        Some(i) => detect_language_guess(messages[i].text.as_str()),
        None => None,
    };
    let t = transcript_text(messages, MAX_LANGUAGE_MESSAGES);
    let ts = string_of(&t);
    let transcript_guess = detect_language_guess(ts.as_str());
    match (root_guess, transcript_guess) {
        (Some(rg), Some(tg)) => {
            if rg.hint.language == tg.hint.language || rg.score + 1 >= tg.score {
                Some(rg.hint)
            } else {
                Some(tg.hint)
            }
        },
        (Some(rg), None) => Some(rg.hint),
        (None, Some(tg)) => Some(tg.hint),
        (None, None) => None,
    }
}

/// The text whose language is checked: the summary, then the reason and the
/// full recap, each after a space, where given.
pub open spec fn combined_output(summary: Seq<char>, why: Option<Seq<char>>, full: Option<Seq<char>>) -> Seq<char> {
    let a = match why {
        Some(w) => summary + seq![' '] + w,
        None => summary,
    };
    match full {
        Some(f) => a + seq![' '] + f,
        None => a,
    }
}

/// `is_output_language_mismatch`: with an expected language, whether the
/// generated text is guessed to be in another one.
pub open spec fn output_mismatch(expected: Option<LanguageHint>, text: Seq<char>) -> bool {
    match expected {
        None => false,
        Some(e) => match language_guess(text) {
            Some((l, _)) => code_of(l) != e.code@,
            None => false,
        },
    }
}

pub fn is_output_language_mismatch(
    expected: Option<LanguageHint>,
    summary: &str,
    why_it_mattered: Option<&str>,
    full_summary: Option<&str>,
) -> (r: bool)
    ensures
        r == output_mismatch(
            expected,
            combined_output(summary@, crate::summary_text::opt_str(why_it_mattered), crate::summary_text::opt_str(full_summary)),
        ),
{
    let e = match expected {
        Some(e) => e,
        None => {
            return false;
        },
    };
    let mut combined = chars_of(summary);
    match why_it_mattered {
        Some(w) => {
            combined.push(' ');
            extend_str(&mut combined, w);
            proof {
                assert(combined@ =~= summary@ + seq![' '] + w@);
            }
        },
        None => {},
    }
    let ghost a = combined@;
    match full_summary {
        Some(f) => {
            combined.push(' ');
            extend_str(&mut combined, f);
            proof {
                assert(combined@ =~= a + seq![' '] + f@);
            }
        },
        None => {},
    }
    proof {
        assert(combined@ == combined_output(summary@, crate::summary_text::opt_str(why_it_mattered), crate::summary_text::opt_str(full_summary)));
    }
    let text = string_of(&combined);
    match detect_language_guess(text.as_str()) {
        Some(actual) => !str_eq(actual.hint.code, e.code),
        None => false,
    }
}

/// `build_language_requirement`: the prompt's paragraph on the language to
/// write in.
pub open spec fn language_requirement(hint: Option<LanguageHint>, retrying: bool) -> Seq<char> {
    match hint {
        Some(h) => {
            let l = h.label@;
            "Language requirement:\n- The dominant language of this thread is "@ + l
                + ".\n- You MUST write summary, full_summary, and why_it_mattered entirely in "@ + l
                + ".\n- Never translate them to English unless "@ + l
                + " is English.\n- If the messages mix languages, prefer the language of the root message unless the remainder clearly dominates.\n"@
                + (if retrying {
                    "- Previous attempt used the wrong language. Regenerate it strictly in "@ + l + ".\n"@
                } else {
                    Seq::empty()
                })
                + "\n"@
        },
        None => "Language requirement:\n- Detect the dominant language from the provided messages.\n- Write summary, full_summary, and why_it_mattered entirely in that same dominant language.\n- Never translate them to English unless the thread is actually in English.\n\n"@,
    }
}

pub fn build_language_requirement(language_hint: Option<LanguageHint>, retrying_after_language_mismatch: bool) -> (r: String)
    ensures
        r@ == language_requirement(language_hint, retrying_after_language_mismatch),
{
    match language_hint {
        Some(h) => {
            let mut out: Vec<char> = Vec::new();
            extend_str(&mut out, "Language requirement:\n- The dominant language of this thread is ");
            extend_str(&mut out, h.label);
            extend_str(&mut out, ".\n- You MUST write summary, full_summary, and why_it_mattered entirely in ");
            extend_str(&mut out, h.label);
            extend_str(&mut out, ".\n- Never translate them to English unless ");
            extend_str(&mut out, h.label);
            extend_str(&mut out, " is English.\n- If the messages mix languages, prefer the language of the root message unless the remainder clearly dominates.\n");
            let ghost before_retry = out@;
            if retrying_after_language_mismatch {
                extend_str(&mut out, "- Previous attempt used the wrong language. Regenerate it strictly in ");
                extend_str(&mut out, h.label);
                extend_str(&mut out, ".\n");
            }
            extend_str(&mut out, "\n");
            proof {
                assert(out@ =~= language_requirement(language_hint, retrying_after_language_mismatch));
            }
            string_of(&out)
        },
        None => {
            "Language requirement:\n- Detect the dominant language from the provided messages.\n- Write summary, full_summary, and why_it_mattered entirely in that same dominant language.\n- Never translate them to English unless the thread is actually in English.\n\n".to_owned()
        },
    }
}

} // verus!
