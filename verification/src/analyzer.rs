//! Extraction of Hangul initial consonants (chosung) for auto-completion.
use vstd::prelude::*;

verus! {

/// The nineteen Hangul initial consonants, in Unicode syllable order.
pub const CHOSUNG_LIST: [char; 19] = [
    'ㄱ', 'ㄲ', 'ㄴ', 'ㄷ', 'ㄸ', 'ㄹ', 'ㅁ', 'ㅂ', 'ㅃ', 'ㅅ', 'ㅆ', 'ㅇ', 'ㅈ', 'ㅉ', 'ㅊ', 'ㅋ',
    'ㅌ', 'ㅍ', 'ㅎ',
];

/// First code point of the precomposed Hangul syllable block ('가').
pub const HANGUL_FIRST: u32 = 0xAC00;

/// Last code point of the precomposed Hangul syllable block ('힣').
pub const HANGUL_LAST: u32 = 0xD7A3;

/// Number of syllables sharing one initial consonant (21 medials times 28 finals).
pub const SYLLABLES_PER_INITIAL: u32 = 588;

/// `c` is a precomposed Hangul syllable, '가' ..= '힣'.
pub open spec fn is_hangul_syllable(c: char) -> bool {
    HANGUL_FIRST <= (c as u32) <= HANGUL_LAST
}

/// `c` is an ASCII letter or an ASCII digit.
pub open spec fn is_ascii_alnum(c: char) -> bool {
    ||| 0x30 <= (c as u32) <= 0x39
    ||| 0x41 <= (c as u32) <= 0x5A
    ||| 0x61 <= (c as u32) <= 0x7A
}

/// `c` is one of the nineteen initial consonants.
pub open spec fn is_chosung(c: char) -> bool {
    exists|i: int| 0 <= i < 19 && CHOSUNG_LIST@[i] == c
}

/// Index of the initial consonant of a Hangul syllable.
pub open spec fn initial_index(c: char) -> int {
    ((c as u32) - HANGUL_FIRST) / (SYLLABLES_PER_INITIAL as int)
}

/// What a single character contributes to the extraction: a syllable gives its initial
/// consonant, an ASCII letter or digit is kept as it is, anything else is dropped.
pub open spec fn chosung_of_char(c: char) -> Option<char> {
    if is_hangul_syllable(c) {
        Some(CHOSUNG_LIST@[initial_index(c)])
    } else if is_ascii_alnum(c) {
        Some(c)
    } else {
        None
    }
}

/// The extraction applied to a whole sequence of characters, character by character.
pub open spec fn chosung_of(s: Seq<char>) -> Seq<char>
    decreases s.len(),
{
    if s.len() == 0 {
        Seq::empty()
    } else {
        let prefix = chosung_of(s.drop_last());
        match chosung_of_char(s.last()) {
            Some(c) => prefix.push(c),
            None => prefix,
        }
    }
}


/// The Hangul compatibility jamo of the nineteen initial consonants, in the order of the
/// Unicode syllable blocks: ㄱ ㄲ ㄴ ㄷ ㄸ ㄹ ㅁ ㅂ ㅃ ㅅ ㅆ ㅇ ㅈ ㅉ ㅊ ㅋ ㅌ ㅍ ㅎ.
pub open spec fn initial_jamo() -> Seq<char> {
    seq![
        '\u{3131}', '\u{3132}', '\u{3134}', '\u{3137}', '\u{3138}', '\u{3139}', '\u{3141}',
        '\u{3142}', '\u{3143}', '\u{3145}', '\u{3146}', '\u{3147}', '\u{3148}', '\u{3149}',
        '\u{314A}', '\u{314B}', '\u{314C}', '\u{314D}', '\u{314E}',
    ]
}

/// Every precomposed syllable '가' ..= '힣' gives its own initial consonant: the syllables
/// come in 19 blocks of 588 (21 medials times 28 finals) from U+AC00, and block `i` gives
/// the `i`-th initial jamo; e.g. '라' (block 5) gives 'ㄹ'.
pub proof fn lemma_syllable_gives_its_initial(c: char)
    requires
        0xAC00 <= (c as u32) <= 0xD7A3,
    ensures
        0 <= ((c as u32) - 0xAC00) / 588 < 19,
        chosung_of_char(c) == Some(initial_jamo()[((c as u32) - 0xAC00) / 588]),
{
    let k = ((c as u32) - 0xAC00) / 588;
    assert(0 <= k < 19);
    assert(CHOSUNG_LIST@ == initial_jamo());
}

/// Hangul text becomes the sequence of the initial consonants of its syllables, one per
/// syllable, in order.
pub proof fn lemma_hangul_text_gives_initials(s: Seq<char>)
    requires
        forall|i: int| 0 <= i < s.len() ==> 0xAC00 <= (#[trigger] s[i] as u32) <= 0xD7A3,
    ensures
        chosung_of(s) == s.map_values(|c: char| initial_jamo()[((c as u32) - 0xAC00) / 588]),
    decreases s.len(),
{
    if s.len() > 0 {
        let p = s.drop_last();
        assert forall|i: int| 0 <= i < p.len() implies 0xAC00 <= (#[trigger] p[i] as u32) <= 0xD7A3 by {
            assert(p[i] == s[i]);
        }
        lemma_hangul_text_gives_initials(p);
        assert(s[s.len() - 1] == s.last());
        lemma_syllable_gives_its_initial(s.last());
        assert(s.map_values(|c: char| initial_jamo()[((c as u32) - 0xAC00) / 588]) == p.map_values(
            |c: char| initial_jamo()[((c as u32) - 0xAC00) / 588],
        ).push(initial_jamo()[((s.last() as u32) - 0xAC00) / 588]));
    }
}

/// Extraction works character by character: the initials of a concatenation are the
/// initials of the first part followed by the initials of the second.
pub proof fn lemma_chosung_of_concat(a: Seq<char>, b: Seq<char>)
    ensures
        chosung_of(a + b) == chosung_of(a) + chosung_of(b),
    decreases b.len(),
{
    if b.len() == 0 {
        assert(a + b == a);
    } else {
        lemma_chosung_of_concat(a, b.drop_last());
        assert((a + b).drop_last() == a + b.drop_last());
        assert((a + b).last() == b.last());
    }
}

/// The extraction never makes text longer.
pub proof fn lemma_chosung_of_len(s: Seq<char>)
    ensures
        chosung_of(s).len() <= s.len(),
    decreases s.len(),
{
    if s.len() > 0 {
        lemma_chosung_of_len(s.drop_last());
    }
}

/// Every character of the result is an initial consonant or an ASCII letter or digit.
pub proof fn lemma_chosung_of_alphabet(s: Seq<char>)
    ensures
        forall|i: int|
            0 <= i < chosung_of(s).len() ==> is_chosung(#[trigger] chosung_of(s)[i])
                || is_ascii_alnum(chosung_of(s)[i]),
    decreases s.len(),
{
    if s.len() > 0 {
        let p = s.drop_last();
        lemma_chosung_of_alphabet(p);
        let c = s.last();
        let r = chosung_of(s);
        if is_hangul_syllable(c) {
            let k = initial_index(c);
            assert(0 <= k < 19) by {
                assert((HANGUL_LAST - HANGUL_FIRST) / 588 == 18);
            }
            assert(is_chosung(CHOSUNG_LIST@[k]));
        }
        assert forall|i: int| 0 <= i < r.len() implies is_chosung(#[trigger] r[i]) || is_ascii_alnum(r[i]) by {
            if i < chosung_of(p).len() {
                assert(r[i] == chosung_of(p)[i]);
            }
        }
    }
}

/// Text made only of ASCII letters and digits comes back unchanged.
pub proof fn lemma_chosung_of_ascii_alnum_identity(s: Seq<char>)
    requires
        forall|i: int| 0 <= i < s.len() ==> is_ascii_alnum(#[trigger] s[i]),
    ensures
        chosung_of(s) == s,
    decreases s.len(),
{
    if s.len() > 0 {
        lemma_chosung_of_ascii_alnum_identity(s.drop_last());
        assert(s.drop_last().push(s.last()) == s);
    }
}

/// Appends one character to a string with std's `String::push`. Claimed, not proved: the
/// string afterwards is the string before with `c` added at its end.
#[verifier::external_body]
pub(crate) fn push_char(s: &mut String, c: char)
    ensures
        final(s)@ == old(s)@.push(c),
{
    s.push(c);
}

/// Turns text into the string of its initials.
pub trait AnalyzerService {
    /// Each Hangul syllable of `input` becomes its initial consonant, ASCII letters and
    /// digits stay, every other character is removed.
    fn extract_chosung(&self, input: &str) -> (res: String)
        ensures
            res@ == chosung_of(input@),
    ;
}

/// The analyzer used by the indexing jobs.
pub struct AnalyzerServicePub;

impl AnalyzerServicePub {
    pub fn new() -> (res: AnalyzerServicePub) {
        AnalyzerServicePub
    }
}

/// The contribution of one character, computed.
pub fn chosung_char(ch: char) -> (res: Option<char>)
    ensures
        res == chosung_of_char(ch),
        0xAC00 <= (ch as u32) <= 0xD7A3 ==> res == Some(initial_jamo()[((ch as u32) - 0xAC00) / 588]),
{
    let v: u32 = ch as u32;
    if HANGUL_FIRST <= v && v <= HANGUL_LAST {
        let idx: u32 = (v - HANGUL_FIRST) / SYLLABLES_PER_INITIAL;
        assert(idx < 19) by {
            assert((HANGUL_LAST - HANGUL_FIRST) / 588 == 18);
        }
        proof {
            lemma_syllable_gives_its_initial(ch);
        }
        Some(CHOSUNG_LIST[idx as usize])
    } else if (0x30 <= v && v <= 0x39) || (0x41 <= v && v <= 0x5A) || (0x61 <= v && v <= 0x7A) {
        Some(ch)
    } else {
        None
    }
}

impl AnalyzerService for AnalyzerServicePub {
    fn extract_chosung(&self, input: &str) -> (res: String) {
        let mut out = String::new();
        for ch in it: input.chars()
            invariant
                it.seq() == input@,
                out@ == chosung_of(input@.take(it.index() as int)),
        {
            assert(input@.take(it.index() + 1).drop_last() == input@.take(it.index() as int));
            match chosung_char(ch) {
                Some(c) => push_char(&mut out, c),
                None => {},
            }
        }
        assert(input@.take(input@.len() as int) == input@);
        out
    }
}

} // verus!
