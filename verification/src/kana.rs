use vstd::prelude::*;
use vstd::string::StringExecFns;
use rand::seq::SliceRandom;

use crate::text::{
    decimal_digits, lemma_parse_decimal_round_trip, chars_of, normalize_answer, normalized, parse_usize, push_char, trim, trimmed, usize_parsed,
};

verus! {

// ---------------------------------------------------------------------------
// The kana table
// ---------------------------------------------------------------------------

/// A (kana, romaji) pair seen as two character sequences.
pub open spec fn pair_view(p: (String, String)) -> (Seq<char>, Seq<char>) {
    (p.0@, p.1@)
}

pub open spec fn pairs_view(v: Seq<(String, String)>) -> Seq<(Seq<char>, Seq<char>)> {
    v.map_values(|p: (String, String)| pair_view(p))
}

/// The hiragana with their romaji: the basic syllables, those with dakuten and
/// handakuten, and the combinations with a small ya, yu or yo.
pub open spec fn hiragana_table() -> Seq<(Seq<char>, Seq<char>)> {
    seq![
        ("あ"@, "a"@),
        ("い"@, "i"@),
        ("う"@, "u"@),
        ("え"@, "e"@),
        ("お"@, "o"@),
        ("か"@, "ka"@),
        ("き"@, "ki"@),
        ("く"@, "ku"@),
        ("け"@, "ke"@),
        ("こ"@, "ko"@),
        ("さ"@, "sa"@),
        ("し"@, "shi"@),
        ("す"@, "su"@),
        ("せ"@, "se"@),
        ("そ"@, "so"@),
        ("た"@, "ta"@),
        ("ち"@, "chi"@),
        ("つ"@, "tsu"@),
        ("て"@, "te"@),
        ("と"@, "to"@),
        ("な"@, "na"@),
        ("に"@, "ni"@),
        ("ぬ"@, "nu"@),
        ("ね"@, "ne"@),
        ("の"@, "no"@),
        ("は"@, "ha"@),
        ("ひ"@, "hi"@),
        ("ふ"@, "fu"@),
        ("へ"@, "he"@),
        ("ほ"@, "ho"@),
        ("ま"@, "ma"@),
        ("み"@, "mi"@),
        ("む"@, "mu"@),
        ("め"@, "me"@),
        ("も"@, "mo"@),
        ("や"@, "ya"@),
        ("ゆ"@, "yu"@),
        ("よ"@, "yo"@),
        ("ら"@, "ra"@),
        ("り"@, "ri"@),
        ("る"@, "ru"@),
        ("れ"@, "re"@),
        ("ろ"@, "ro"@),
        ("わ"@, "wa"@),
        ("を"@, "wo"@),
        ("ん"@, "n"@),
        ("が"@, "ga"@),
        ("ぎ"@, "gi"@),
        ("ぐ"@, "gu"@),
        ("げ"@, "ge"@),
        ("ご"@, "go"@),
        ("ざ"@, "za"@),
        ("じ"@, "ji"@),
        ("ず"@, "zu"@),
        ("ぜ"@, "ze"@),
        ("ぞ"@, "zo"@),
        ("だ"@, "da"@),
        ("ぢ"@, "ji"@),
        ("づ"@, "zu"@),
        ("で"@, "de"@),
        ("ど"@, "do"@),
        ("ば"@, "ba"@),
        ("び"@, "bi"@),
        ("ぶ"@, "bu"@),
        ("べ"@, "be"@),
        ("ぼ"@, "bo"@),
        ("ぱ"@, "pa"@),
        ("ぴ"@, "pi"@),
        ("ぷ"@, "pu"@),
        ("ぺ"@, "pe"@),
        ("ぽ"@, "po"@),
        ("きゃ"@, "kya"@),
        ("きゅ"@, "kyu"@),
        ("きょ"@, "kyo"@),
        ("しゃ"@, "sha"@),
        ("しゅ"@, "shu"@),
        ("しょ"@, "sho"@),
        ("ちゃ"@, "cha"@),
        ("ちゅ"@, "chu"@),
        ("ちょ"@, "cho"@),
        ("にゃ"@, "nya"@),
        ("にゅ"@, "nyu"@),
        ("にょ"@, "nyo"@),
        ("ひゃ"@, "hya"@),
        ("ひゅ"@, "hyu"@),
        ("ひょ"@, "hyo"@),
        ("みゃ"@, "mya"@),
        ("みゅ"@, "myu"@),
        ("みょ"@, "myo"@),
        ("りゃ"@, "rya"@),
        ("りゅ"@, "ryu"@),
        ("りょ"@, "ryo"@),
        ("ぎゃ"@, "gya"@),
        ("ぎゅ"@, "gyu"@),
        ("ぎょ"@, "gyo"@),
        ("じゃ"@, "ja"@),
        ("じゅ"@, "ju"@),
        ("じょ"@, "jo"@),
        ("びゃ"@, "bya"@),
        ("びゅ"@, "byu"@),
        ("びょ"@, "byo"@),
        ("ぴゃ"@, "pya"@),
        ("ぴゅ"@, "pyu"@),
        ("ぴょ"@, "pyo"@)
    ]
}

/// The hiragana table, in order.
pub fn hiragana_pairs() -> (r: Vec<(String, String)>)
    ensures
        pairs_view(r@) == hiragana_table(),
{
    let r = vec![
        (String::from_str("あ"), String::from_str("a")),
        (String::from_str("い"), String::from_str("i")),
        (String::from_str("う"), String::from_str("u")),
        (String::from_str("え"), String::from_str("e")),
        (String::from_str("お"), String::from_str("o")),
        (String::from_str("か"), String::from_str("ka")),
        (String::from_str("き"), String::from_str("ki")),
        (String::from_str("く"), String::from_str("ku")),
        (String::from_str("け"), String::from_str("ke")),
        (String::from_str("こ"), String::from_str("ko")),
        (String::from_str("さ"), String::from_str("sa")),
        (String::from_str("し"), String::from_str("shi")),
        (String::from_str("す"), String::from_str("su")),
        (String::from_str("せ"), String::from_str("se")),
        (String::from_str("そ"), String::from_str("so")),
        (String::from_str("た"), String::from_str("ta")),
        (String::from_str("ち"), String::from_str("chi")),
        (String::from_str("つ"), String::from_str("tsu")),
        (String::from_str("て"), String::from_str("te")),
        (String::from_str("と"), String::from_str("to")),
        (String::from_str("な"), String::from_str("na")),
        (String::from_str("に"), String::from_str("ni")),
        (String::from_str("ぬ"), String::from_str("nu")),
        (String::from_str("ね"), String::from_str("ne")),
        (String::from_str("の"), String::from_str("no")),
        (String::from_str("は"), String::from_str("ha")),
        (String::from_str("ひ"), String::from_str("hi")),
        (String::from_str("ふ"), String::from_str("fu")),
        (String::from_str("へ"), String::from_str("he")),
        (String::from_str("ほ"), String::from_str("ho")),
        (String::from_str("ま"), String::from_str("ma")),
        (String::from_str("み"), String::from_str("mi")),
        (String::from_str("む"), String::from_str("mu")),
        (String::from_str("め"), String::from_str("me")),
        (String::from_str("も"), String::from_str("mo")),
        (String::from_str("や"), String::from_str("ya")),
        (String::from_str("ゆ"), String::from_str("yu")),
        (String::from_str("よ"), String::from_str("yo")),
        (String::from_str("ら"), String::from_str("ra")),
        (String::from_str("り"), String::from_str("ri")),
        (String::from_str("る"), String::from_str("ru")),
        (String::from_str("れ"), String::from_str("re")),
        (String::from_str("ろ"), String::from_str("ro")),
        (String::from_str("わ"), String::from_str("wa")),
        (String::from_str("を"), String::from_str("wo")),
        (String::from_str("ん"), String::from_str("n")),
        (String::from_str("が"), String::from_str("ga")),
        (String::from_str("ぎ"), String::from_str("gi")),
        (String::from_str("ぐ"), String::from_str("gu")),
        (String::from_str("げ"), String::from_str("ge")),
        (String::from_str("ご"), String::from_str("go")),
        (String::from_str("ざ"), String::from_str("za")),
        (String::from_str("じ"), String::from_str("ji")),
        (String::from_str("ず"), String::from_str("zu")),
        (String::from_str("ぜ"), String::from_str("ze")),
        (String::from_str("ぞ"), String::from_str("zo")),
        (String::from_str("だ"), String::from_str("da")),
        (String::from_str("ぢ"), String::from_str("ji")),
        (String::from_str("づ"), String::from_str("zu")),
        (String::from_str("で"), String::from_str("de")),
        (String::from_str("ど"), String::from_str("do")),
        (String::from_str("ば"), String::from_str("ba")),
        (String::from_str("び"), String::from_str("bi")),
        (String::from_str("ぶ"), String::from_str("bu")),
        (String::from_str("べ"), String::from_str("be")),
        (String::from_str("ぼ"), String::from_str("bo")),
        (String::from_str("ぱ"), String::from_str("pa")),
        (String::from_str("ぴ"), String::from_str("pi")),
        (String::from_str("ぷ"), String::from_str("pu")),
        (String::from_str("ぺ"), String::from_str("pe")),
        (String::from_str("ぽ"), String::from_str("po")),
        (String::from_str("きゃ"), String::from_str("kya")),
        (String::from_str("きゅ"), String::from_str("kyu")),
        (String::from_str("きょ"), String::from_str("kyo")),
        (String::from_str("しゃ"), String::from_str("sha")),
        (String::from_str("しゅ"), String::from_str("shu")),
        (String::from_str("しょ"), String::from_str("sho")),
        (String::from_str("ちゃ"), String::from_str("cha")),
        (String::from_str("ちゅ"), String::from_str("chu")),
        (String::from_str("ちょ"), String::from_str("cho")),
        (String::from_str("にゃ"), String::from_str("nya")),
        (String::from_str("にゅ"), String::from_str("nyu")),
        (String::from_str("にょ"), String::from_str("nyo")),
        (String::from_str("ひゃ"), String::from_str("hya")),
        (String::from_str("ひゅ"), String::from_str("hyu")),
        (String::from_str("ひょ"), String::from_str("hyo")),
        (String::from_str("みゃ"), String::from_str("mya")),
        (String::from_str("みゅ"), String::from_str("myu")),
        (String::from_str("みょ"), String::from_str("myo")),
        (String::from_str("りゃ"), String::from_str("rya")),
        (String::from_str("りゅ"), String::from_str("ryu")),
        (String::from_str("りょ"), String::from_str("ryo")),
        (String::from_str("ぎゃ"), String::from_str("gya")),
        (String::from_str("ぎゅ"), String::from_str("gyu")),
        (String::from_str("ぎょ"), String::from_str("gyo")),
        (String::from_str("じゃ"), String::from_str("ja")),
        (String::from_str("じゅ"), String::from_str("ju")),
        (String::from_str("じょ"), String::from_str("jo")),
        (String::from_str("びゃ"), String::from_str("bya")),
        (String::from_str("びゅ"), String::from_str("byu")),
        (String::from_str("びょ"), String::from_str("byo")),
        (String::from_str("ぴゃ"), String::from_str("pya")),
        (String::from_str("ぴゅ"), String::from_str("pyu")),
        (String::from_str("ぴょ"), String::from_str("pyo"))
    ];
    assert(pairs_view(r@) =~= hiragana_table());
    r
}

// ---------------------------------------------------------------------------
// Hepburn romanisation
// ---------------------------------------------------------------------------

/// The vowel of a column of the kana table: a, i, u, e, o.
pub open spec fn column_vowel(col: int) -> char {
    if col == 0 {
        'a'
    } else if col == 1 {
        'i'
    } else if col == 2 {
        'u'
    } else if col == 3 {
        'e'
    } else {
        'o'
    }
}

/// A consonant followed by the vowel of a column.
pub open spec fn consonant_vowel(consonant: Seq<char>, col: int) -> Seq<char> {
    consonant.push(column_vowel(col))
}

/// The Hepburn romaji of one hiragana syllable, worked out from its place in
/// the Unicode hiragana block (rows of the table in order, each letter of the
/// k, s, t and h rows followed by its voiced forms): the consonant of the row
/// followed by the vowel of the column, with the usual exceptions shi, chi,
/// tsu, fu, ji (for both じ and ぢ) and zu (for both ず and づ). `None` for a
/// character that is no full-size syllable.
pub open spec fn syllable_romaji(c: char) -> Option<Seq<char>> {
    let u = c as u32 as int;
    if 0x3042 <= u <= 0x304A && (u - 0x3042) % 2 == 0 {
        Some(seq![column_vowel((u - 0x3042) / 2)])
    } else if 0x304B <= u <= 0x3054 {
        let o = u - 0x304B;
        Some(consonant_vowel(if o % 2 == 0 { seq!['k'] } else { seq!['g'] }, o / 2))
    } else if 0x3055 <= u <= 0x305E {
        let o = u - 0x3055;
        let voiced = o % 2 == 1;
        if o / 2 == 1 {
            Some(if voiced { seq!['j', 'i'] } else { seq!['s', 'h', 'i'] })
        } else {
            Some(consonant_vowel(if voiced { seq!['z'] } else { seq!['s'] }, o / 2))
        }
    } else if (0x305F <= u <= 0x3062) || (0x3064 <= u <= 0x3069) {
        let col = if u <= 0x3062 { (u - 0x305F) / 2 } else { (u - 0x3064) / 2 + 2 };
        let voiced = if u <= 0x3062 { (u - 0x305F) % 2 == 1 } else { (u - 0x3064) % 2 == 1 };
        if col == 1 {
            Some(if voiced { seq!['j', 'i'] } else { seq!['c', 'h', 'i'] })
        } else if col == 2 {
            Some(if voiced { seq!['z', 'u'] } else { seq!['t', 's', 'u'] })
        } else {
            Some(consonant_vowel(if voiced { seq!['d'] } else { seq!['t'] }, col))
        }
    } else if 0x306A <= u <= 0x306E {
        Some(consonant_vowel(seq!['n'], u - 0x306A))
    } else if 0x306F <= u <= 0x307D {
        let o = u - 0x306F;
        let col = o / 3;
        let m = o % 3;
        if col == 2 && m == 0 {
            Some(seq!['f', 'u'])
        } else {
            Some(
                consonant_vowel(
                    if m == 0 {
                        seq!['h']
                    } else if m == 1 {
                        seq!['b']
                    } else {
                        seq!['p']
                    },
                    col,
                ),
            )
        }
    } else if 0x307E <= u <= 0x3082 {
        Some(consonant_vowel(seq!['m'], u - 0x307E))
    } else if u == 0x3084 || u == 0x3086 || u == 0x3088 {
        Some(consonant_vowel(seq!['y'], if u == 0x3084 { 0 } else if u == 0x3086 { 2 } else { 4 }))
    } else if 0x3089 <= u <= 0x308D {
        Some(consonant_vowel(seq!['r'], u - 0x3089))
    } else if u == 0x308F {
        Some(seq!['w', 'a'])
    } else if u == 0x3092 {
        Some(seq!['w', 'o'])
    } else if u == 0x3093 {
        Some(seq!['n'])
    } else {
        None
    }
}

/// The vowel of a small ya, yu or yo.
pub open spec fn small_y_vowel(c: char) -> Option<char> {
    let u = c as u32;
    if u == 0x3083 {
        Some('a')
    } else if u == 0x3085 {
        Some('u')
    } else if u == 0x3087 {
        Some('o')
    } else {
        None
    }
}

/// The Hepburn romaji of a kana: one syllable, or an i-column syllable with a
/// small ya, yu or yo, read as its consonant followed by y and the vowel
/// (kya, nyu, ...), or by the vowel alone after sh, ch and j (sha, chu, jo).
pub open spec fn hepburn(k: Seq<char>) -> Option<Seq<char>> {
    if k.len() == 1 {
        syllable_romaji(k[0])
    } else if k.len() == 2 {
        match (syllable_romaji(k[0]), small_y_vowel(k[1])) {
            (Some(b), Some(v)) => if b.len() >= 2 && b.last() == 'i' {
                let stem = b.drop_last();
                if (stem.len() >= 2 && stem.last() == 'h') || (stem.len() == 1 && stem[0] == 'j') {
                    Some(stem.push(v))
                } else {
                    Some(stem.push('y').push(v))
                }
            } else {
                None
            },
            _ => None,
        }
    } else {
        None
    }
}

proof fn lemma_table_romaji_0()
    ensures
        forall|i: int| 0 <= i < 8 ==> hepburn(#[trigger] hiragana_table()[i].0) == Some(hiragana_table()[i].1),
{
    reveal_strlit("あ");
    reveal_strlit("a");
    reveal_strlit("い");
    reveal_strlit("i");
    reveal_strlit("う");
    reveal_strlit("u");
    reveal_strlit("え");
    reveal_strlit("e");
    reveal_strlit("お");
    reveal_strlit("o");
    reveal_strlit("か");
    reveal_strlit("ka");
    reveal_strlit("き");
    reveal_strlit("ki");
    reveal_strlit("く");
    reveal_strlit("ku");
    assert(hiragana_table()[0] == ("あ"@, "a"@));
    assert("あ"@ =~= seq!['あ']);
    assert("a"@ =~= seq!['a']);
    assert(hepburn(seq!['あ']) is Some && hepburn(seq!['あ']).unwrap() =~= seq!['a']);
    assert(hiragana_table()[1] == ("い"@, "i"@));
    assert("い"@ =~= seq!['い']);
    assert("i"@ =~= seq!['i']);
    assert(hepburn(seq!['い']) is Some && hepburn(seq!['い']).unwrap() =~= seq!['i']);
    assert(hiragana_table()[2] == ("う"@, "u"@));
    assert("う"@ =~= seq!['う']);
    assert("u"@ =~= seq!['u']);
    assert(hepburn(seq!['う']) is Some && hepburn(seq!['う']).unwrap() =~= seq!['u']);
    assert(hiragana_table()[3] == ("え"@, "e"@));
    assert("え"@ =~= seq!['え']);
    assert("e"@ =~= seq!['e']);
    assert(hepburn(seq!['え']) is Some && hepburn(seq!['え']).unwrap() =~= seq!['e']);
    assert(hiragana_table()[4] == ("お"@, "o"@));
    assert("お"@ =~= seq!['お']);
    assert("o"@ =~= seq!['o']);
    assert(hepburn(seq!['お']) is Some && hepburn(seq!['お']).unwrap() =~= seq!['o']);
    assert(hiragana_table()[5] == ("か"@, "ka"@));
    assert("か"@ =~= seq!['か']);
    assert("ka"@ =~= seq!['k', 'a']);
    assert(hepburn(seq!['か']) is Some && hepburn(seq!['か']).unwrap() =~= seq!['k', 'a']);
    assert(hiragana_table()[6] == ("き"@, "ki"@));
    assert("き"@ =~= seq!['き']);
    assert("ki"@ =~= seq!['k', 'i']);
    assert(hepburn(seq!['き']) is Some && hepburn(seq!['き']).unwrap() =~= seq!['k', 'i']);
    assert(hiragana_table()[7] == ("く"@, "ku"@));
    assert("く"@ =~= seq!['く']);
    assert("ku"@ =~= seq!['k', 'u']);
    assert(hepburn(seq!['く']) is Some && hepburn(seq!['く']).unwrap() =~= seq!['k', 'u']);
    assert forall|i: int| 0 <= i < 8 implies hepburn(#[trigger] hiragana_table()[i].0) == Some(hiragana_table()[i].1) by {
        if i == 0 {}
        if i == 1 {}
        if i == 2 {}
        if i == 3 {}
        if i == 4 {}
        if i == 5 {}
        if i == 6 {}
        if i == 7 {}
    }
}

proof fn lemma_table_romaji_8()
    ensures
        forall|i: int| 8 <= i < 16 ==> hepburn(#[trigger] hiragana_table()[i].0) == Some(hiragana_table()[i].1),
{
    reveal_strlit("け");
    reveal_strlit("ke");
    reveal_strlit("こ");
    reveal_strlit("ko");
    reveal_strlit("さ");
    reveal_strlit("sa");
    reveal_strlit("し");
    reveal_strlit("shi");
    reveal_strlit("す");
    reveal_strlit("su");
    reveal_strlit("せ");
    reveal_strlit("se");
    reveal_strlit("そ");
    reveal_strlit("so");
    reveal_strlit("た");
    reveal_strlit("ta");
    assert(hiragana_table()[8] == ("け"@, "ke"@));
    assert("け"@ =~= seq!['け']);
    assert("ke"@ =~= seq!['k', 'e']);
    assert(hepburn(seq!['け']) is Some && hepburn(seq!['け']).unwrap() =~= seq!['k', 'e']);
    assert(hiragana_table()[9] == ("こ"@, "ko"@));
    assert("こ"@ =~= seq!['こ']);
    assert("ko"@ =~= seq!['k', 'o']);
    assert(hepburn(seq!['こ']) is Some && hepburn(seq!['こ']).unwrap() =~= seq!['k', 'o']);
    assert(hiragana_table()[10] == ("さ"@, "sa"@));
    assert("さ"@ =~= seq!['さ']);
    assert("sa"@ =~= seq!['s', 'a']);
    assert(hepburn(seq!['さ']) is Some && hepburn(seq!['さ']).unwrap() =~= seq!['s', 'a']);
    assert(hiragana_table()[11] == ("し"@, "shi"@));
    assert("し"@ =~= seq!['し']);
    assert("shi"@ =~= seq!['s', 'h', 'i']);
    assert(hepburn(seq!['し']) is Some && hepburn(seq!['し']).unwrap() =~= seq!['s', 'h', 'i']);
    assert(hiragana_table()[12] == ("す"@, "su"@));
    assert("す"@ =~= seq!['す']);
    assert("su"@ =~= seq!['s', 'u']);
    assert(hepburn(seq!['す']) is Some && hepburn(seq!['す']).unwrap() =~= seq!['s', 'u']);
    assert(hiragana_table()[13] == ("せ"@, "se"@));
    assert("せ"@ =~= seq!['せ']);
    assert("se"@ =~= seq!['s', 'e']);
    assert(hepburn(seq!['せ']) is Some && hepburn(seq!['せ']).unwrap() =~= seq!['s', 'e']);
    assert(hiragana_table()[14] == ("そ"@, "so"@));
    assert("そ"@ =~= seq!['そ']);
    assert("so"@ =~= seq!['s', 'o']);
    assert(hepburn(seq!['そ']) is Some && hepburn(seq!['そ']).unwrap() =~= seq!['s', 'o']);
    assert(hiragana_table()[15] == ("た"@, "ta"@));
    assert("た"@ =~= seq!['た']);
    assert("ta"@ =~= seq!['t', 'a']);
    assert(hepburn(seq!['た']) is Some && hepburn(seq!['た']).unwrap() =~= seq!['t', 'a']);
    assert forall|i: int| 8 <= i < 16 implies hepburn(#[trigger] hiragana_table()[i].0) == Some(hiragana_table()[i].1) by {
        if i == 8 {}
        if i == 9 {}
        if i == 10 {}
        if i == 11 {}
        if i == 12 {}
        if i == 13 {}
        if i == 14 {}
        if i == 15 {}
    }
}

proof fn lemma_table_romaji_16()
    ensures
        forall|i: int| 16 <= i < 24 ==> hepburn(#[trigger] hiragana_table()[i].0) == Some(hiragana_table()[i].1),
{
    reveal_strlit("ち");
    reveal_strlit("chi");
    reveal_strlit("つ");
    reveal_strlit("tsu");
    reveal_strlit("て");
    reveal_strlit("te");
    reveal_strlit("と");
    reveal_strlit("to");
    reveal_strlit("な");
    reveal_strlit("na");
    reveal_strlit("に");
    reveal_strlit("ni");
    reveal_strlit("ぬ");
    reveal_strlit("nu");
    reveal_strlit("ね");
    reveal_strlit("ne");
    assert(hiragana_table()[16] == ("ち"@, "chi"@));
    assert("ち"@ =~= seq!['ち']);
    assert("chi"@ =~= seq!['c', 'h', 'i']);
    assert(hepburn(seq!['ち']) is Some && hepburn(seq!['ち']).unwrap() =~= seq!['c', 'h', 'i']);
    assert(hiragana_table()[17] == ("つ"@, "tsu"@));
    assert("つ"@ =~= seq!['つ']);
    assert("tsu"@ =~= seq!['t', 's', 'u']);
    assert(hepburn(seq!['つ']) is Some && hepburn(seq!['つ']).unwrap() =~= seq!['t', 's', 'u']);
    assert(hiragana_table()[18] == ("て"@, "te"@));
    assert("て"@ =~= seq!['て']);
    assert("te"@ =~= seq!['t', 'e']);
    assert(hepburn(seq!['て']) is Some && hepburn(seq!['て']).unwrap() =~= seq!['t', 'e']);
    assert(hiragana_table()[19] == ("と"@, "to"@));
    assert("と"@ =~= seq!['と']);
    assert("to"@ =~= seq!['t', 'o']);
    assert(hepburn(seq!['と']) is Some && hepburn(seq!['と']).unwrap() =~= seq!['t', 'o']);
    assert(hiragana_table()[20] == ("な"@, "na"@));
    assert("な"@ =~= seq!['な']);
    assert("na"@ =~= seq!['n', 'a']);
    assert(hepburn(seq!['な']) is Some && hepburn(seq!['な']).unwrap() =~= seq!['n', 'a']);
    assert(hiragana_table()[21] == ("に"@, "ni"@));
    assert("に"@ =~= seq!['に']);
    assert("ni"@ =~= seq!['n', 'i']);
    assert(hepburn(seq!['に']) is Some && hepburn(seq!['に']).unwrap() =~= seq!['n', 'i']);
    assert(hiragana_table()[22] == ("ぬ"@, "nu"@));
    assert("ぬ"@ =~= seq!['ぬ']);
    assert("nu"@ =~= seq!['n', 'u']);
    assert(hepburn(seq!['ぬ']) is Some && hepburn(seq!['ぬ']).unwrap() =~= seq!['n', 'u']);
    assert(hiragana_table()[23] == ("ね"@, "ne"@));
    assert("ね"@ =~= seq!['ね']);
    assert("ne"@ =~= seq!['n', 'e']);
    assert(hepburn(seq!['ね']) is Some && hepburn(seq!['ね']).unwrap() =~= seq!['n', 'e']);
    assert forall|i: int| 16 <= i < 24 implies hepburn(#[trigger] hiragana_table()[i].0) == Some(hiragana_table()[i].1) by {
        if i == 16 {}
        if i == 17 {}
        if i == 18 {}
        if i == 19 {}
        if i == 20 {}
        if i == 21 {}
        if i == 22 {}
        if i == 23 {}
    }
}

proof fn lemma_table_romaji_24()
    ensures
        forall|i: int| 24 <= i < 32 ==> hepburn(#[trigger] hiragana_table()[i].0) == Some(hiragana_table()[i].1),
{
    reveal_strlit("の");
    reveal_strlit("no");
    reveal_strlit("は");
    reveal_strlit("ha");
    reveal_strlit("ひ");
    reveal_strlit("hi");
    reveal_strlit("ふ");
    reveal_strlit("fu");
    reveal_strlit("へ");
    reveal_strlit("he");
    reveal_strlit("ほ");
    reveal_strlit("ho");
    reveal_strlit("ま");
    reveal_strlit("ma");
    reveal_strlit("み");
    reveal_strlit("mi");
    assert(hiragana_table()[24] == ("の"@, "no"@));
    assert("の"@ =~= seq!['の']);
    assert("no"@ =~= seq!['n', 'o']);
    assert(hepburn(seq!['の']) is Some && hepburn(seq!['の']).unwrap() =~= seq!['n', 'o']);
    assert(hiragana_table()[25] == ("は"@, "ha"@));
    assert("は"@ =~= seq!['は']);
    assert("ha"@ =~= seq!['h', 'a']);
    assert(hepburn(seq!['は']) is Some && hepburn(seq!['は']).unwrap() =~= seq!['h', 'a']);
    assert(hiragana_table()[26] == ("ひ"@, "hi"@));
    assert("ひ"@ =~= seq!['ひ']);
    assert("hi"@ =~= seq!['h', 'i']);
    assert(hepburn(seq!['ひ']) is Some && hepburn(seq!['ひ']).unwrap() =~= seq!['h', 'i']);
    assert(hiragana_table()[27] == ("ふ"@, "fu"@));
    assert("ふ"@ =~= seq!['ふ']);
    assert("fu"@ =~= seq!['f', 'u']);
    assert(hepburn(seq!['ふ']) is Some && hepburn(seq!['ふ']).unwrap() =~= seq!['f', 'u']);
    assert(hiragana_table()[28] == ("へ"@, "he"@));
    assert("へ"@ =~= seq!['へ']);
    assert("he"@ =~= seq!['h', 'e']);
    assert(hepburn(seq!['へ']) is Some && hepburn(seq!['へ']).unwrap() =~= seq!['h', 'e']);
    assert(hiragana_table()[29] == ("ほ"@, "ho"@));
    assert("ほ"@ =~= seq!['ほ']);
    assert("ho"@ =~= seq!['h', 'o']);
    assert(hepburn(seq!['ほ']) is Some && hepburn(seq!['ほ']).unwrap() =~= seq!['h', 'o']);
    assert(hiragana_table()[30] == ("ま"@, "ma"@));
    assert("ま"@ =~= seq!['ま']);
    assert("ma"@ =~= seq!['m', 'a']);
    assert(hepburn(seq!['ま']) is Some && hepburn(seq!['ま']).unwrap() =~= seq!['m', 'a']);
    assert(hiragana_table()[31] == ("み"@, "mi"@));
    assert("み"@ =~= seq!['み']);
    assert("mi"@ =~= seq!['m', 'i']);
    assert(hepburn(seq!['み']) is Some && hepburn(seq!['み']).unwrap() =~= seq!['m', 'i']);
    assert forall|i: int| 24 <= i < 32 implies hepburn(#[trigger] hiragana_table()[i].0) == Some(hiragana_table()[i].1) by {
        if i == 24 {}
        if i == 25 {}
        if i == 26 {}
        if i == 27 {}
        if i == 28 {}
        if i == 29 {}
        if i == 30 {}
        if i == 31 {}
    }
}

proof fn lemma_table_romaji_32()
    ensures
        forall|i: int| 32 <= i < 40 ==> hepburn(#[trigger] hiragana_table()[i].0) == Some(hiragana_table()[i].1),
{
    reveal_strlit("む");
    reveal_strlit("mu");
    reveal_strlit("め");
    reveal_strlit("me");
    reveal_strlit("も");
    reveal_strlit("mo");
    reveal_strlit("や");
    reveal_strlit("ya");
    reveal_strlit("ゆ");
    reveal_strlit("yu");
    reveal_strlit("よ");
    reveal_strlit("yo");
    reveal_strlit("ら");
    reveal_strlit("ra");
    reveal_strlit("り");
    reveal_strlit("ri");
    assert(hiragana_table()[32] == ("む"@, "mu"@));
    assert("む"@ =~= seq!['む']);
    assert("mu"@ =~= seq!['m', 'u']);
    assert(hepburn(seq!['む']) is Some && hepburn(seq!['む']).unwrap() =~= seq!['m', 'u']);
    assert(hiragana_table()[33] == ("め"@, "me"@));
    assert("め"@ =~= seq!['め']);
    assert("me"@ =~= seq!['m', 'e']);
    assert(hepburn(seq!['め']) is Some && hepburn(seq!['め']).unwrap() =~= seq!['m', 'e']);
    assert(hiragana_table()[34] == ("も"@, "mo"@));
    assert("も"@ =~= seq!['も']);
    assert("mo"@ =~= seq!['m', 'o']);
    assert(hepburn(seq!['も']) is Some && hepburn(seq!['も']).unwrap() =~= seq!['m', 'o']);
    assert(hiragana_table()[35] == ("や"@, "ya"@));
    assert("や"@ =~= seq!['や']);
    assert("ya"@ =~= seq!['y', 'a']);
    assert(hepburn(seq!['や']) is Some && hepburn(seq!['や']).unwrap() =~= seq!['y', 'a']);
    assert(hiragana_table()[36] == ("ゆ"@, "yu"@));
    assert("ゆ"@ =~= seq!['ゆ']);
    assert("yu"@ =~= seq!['y', 'u']);
    assert(hepburn(seq!['ゆ']) is Some && hepburn(seq!['ゆ']).unwrap() =~= seq!['y', 'u']);
    assert(hiragana_table()[37] == ("よ"@, "yo"@));
    assert("よ"@ =~= seq!['よ']);
    assert("yo"@ =~= seq!['y', 'o']);
    assert(hepburn(seq!['よ']) is Some && hepburn(seq!['よ']).unwrap() =~= seq!['y', 'o']);
    assert(hiragana_table()[38] == ("ら"@, "ra"@));
    assert("ら"@ =~= seq!['ら']);
    assert("ra"@ =~= seq!['r', 'a']);
    assert(hepburn(seq!['ら']) is Some && hepburn(seq!['ら']).unwrap() =~= seq!['r', 'a']);
    assert(hiragana_table()[39] == ("り"@, "ri"@));
    assert("り"@ =~= seq!['り']);
    assert("ri"@ =~= seq!['r', 'i']);
    assert(hepburn(seq!['り']) is Some && hepburn(seq!['り']).unwrap() =~= seq!['r', 'i']);
    assert forall|i: int| 32 <= i < 40 implies hepburn(#[trigger] hiragana_table()[i].0) == Some(hiragana_table()[i].1) by {
        if i == 32 {}
        if i == 33 {}
        if i == 34 {}
        if i == 35 {}
        if i == 36 {}
        if i == 37 {}
        if i == 38 {}
        if i == 39 {}
    }
}

proof fn lemma_table_romaji_40()
    ensures
        forall|i: int| 40 <= i < 48 ==> hepburn(#[trigger] hiragana_table()[i].0) == Some(hiragana_table()[i].1),
{
    reveal_strlit("る");
    reveal_strlit("ru");
    reveal_strlit("れ");
    reveal_strlit("re");
    reveal_strlit("ろ");
    reveal_strlit("ro");
    reveal_strlit("わ");
    reveal_strlit("wa");
    reveal_strlit("を");
    reveal_strlit("wo");
    reveal_strlit("ん");
    reveal_strlit("n");
    reveal_strlit("が");
    reveal_strlit("ga");
    reveal_strlit("ぎ");
    reveal_strlit("gi");
    assert(hiragana_table()[40] == ("る"@, "ru"@));
    assert("る"@ =~= seq!['る']);
    assert("ru"@ =~= seq!['r', 'u']);
    assert(hepburn(seq!['る']) is Some && hepburn(seq!['る']).unwrap() =~= seq!['r', 'u']);
    assert(hiragana_table()[41] == ("れ"@, "re"@));
    assert("れ"@ =~= seq!['れ']);
    assert("re"@ =~= seq!['r', 'e']);
    assert(hepburn(seq!['れ']) is Some && hepburn(seq!['れ']).unwrap() =~= seq!['r', 'e']);
    assert(hiragana_table()[42] == ("ろ"@, "ro"@));
    assert("ろ"@ =~= seq!['ろ']);
    assert("ro"@ =~= seq!['r', 'o']);
    assert(hepburn(seq!['ろ']) is Some && hepburn(seq!['ろ']).unwrap() =~= seq!['r', 'o']);
    assert(hiragana_table()[43] == ("わ"@, "wa"@));
    assert("わ"@ =~= seq!['わ']);
    assert("wa"@ =~= seq!['w', 'a']);
    assert(hepburn(seq!['わ']) is Some && hepburn(seq!['わ']).unwrap() =~= seq!['w', 'a']);
    assert(hiragana_table()[44] == ("を"@, "wo"@));
    assert("を"@ =~= seq!['を']);
    assert("wo"@ =~= seq!['w', 'o']);
    assert(hepburn(seq!['を']) is Some && hepburn(seq!['を']).unwrap() =~= seq!['w', 'o']);
    assert(hiragana_table()[45] == ("ん"@, "n"@));
    assert("ん"@ =~= seq!['ん']);
    assert("n"@ =~= seq!['n']);
    assert(hepburn(seq!['ん']) is Some && hepburn(seq!['ん']).unwrap() =~= seq!['n']);
    assert(hiragana_table()[46] == ("が"@, "ga"@));
    assert("が"@ =~= seq!['が']);
    assert("ga"@ =~= seq!['g', 'a']);
    assert(hepburn(seq!['が']) is Some && hepburn(seq!['が']).unwrap() =~= seq!['g', 'a']);
    assert(hiragana_table()[47] == ("ぎ"@, "gi"@));
    assert("ぎ"@ =~= seq!['ぎ']);
    assert("gi"@ =~= seq!['g', 'i']);
    assert(hepburn(seq!['ぎ']) is Some && hepburn(seq!['ぎ']).unwrap() =~= seq!['g', 'i']);
    assert forall|i: int| 40 <= i < 48 implies hepburn(#[trigger] hiragana_table()[i].0) == Some(hiragana_table()[i].1) by {
        if i == 40 {}
        if i == 41 {}
        if i == 42 {}
        if i == 43 {}
        if i == 44 {}
        if i == 45 {}
        if i == 46 {}
        if i == 47 {}
    }
}

proof fn lemma_table_romaji_48()
    ensures
        forall|i: int| 48 <= i < 56 ==> hepburn(#[trigger] hiragana_table()[i].0) == Some(hiragana_table()[i].1),
{
    reveal_strlit("ぐ");
    reveal_strlit("gu");
    reveal_strlit("げ");
    reveal_strlit("ge");
    reveal_strlit("ご");
    reveal_strlit("go");
    reveal_strlit("ざ");
    reveal_strlit("za");
    reveal_strlit("じ");
    reveal_strlit("ji");
    reveal_strlit("ず");
    reveal_strlit("zu");
    reveal_strlit("ぜ");
    reveal_strlit("ze");
    reveal_strlit("ぞ");
    reveal_strlit("zo");
    assert(hiragana_table()[48] == ("ぐ"@, "gu"@));
    assert("ぐ"@ =~= seq!['ぐ']);
    assert("gu"@ =~= seq!['g', 'u']);
    assert(hepburn(seq!['ぐ']) is Some && hepburn(seq!['ぐ']).unwrap() =~= seq!['g', 'u']);
    assert(hiragana_table()[49] == ("げ"@, "ge"@));
    assert("げ"@ =~= seq!['げ']);
    assert("ge"@ =~= seq!['g', 'e']);
    assert(hepburn(seq!['げ']) is Some && hepburn(seq!['げ']).unwrap() =~= seq!['g', 'e']);
    assert(hiragana_table()[50] == ("ご"@, "go"@));
    assert("ご"@ =~= seq!['ご']);
    assert("go"@ =~= seq!['g', 'o']);
    assert(hepburn(seq!['ご']) is Some && hepburn(seq!['ご']).unwrap() =~= seq!['g', 'o']);
    assert(hiragana_table()[51] == ("ざ"@, "za"@));
    assert("ざ"@ =~= seq!['ざ']);
    assert("za"@ =~= seq!['z', 'a']);
    assert(hepburn(seq!['ざ']) is Some && hepburn(seq!['ざ']).unwrap() =~= seq!['z', 'a']);
    assert(hiragana_table()[52] == ("じ"@, "ji"@));
    assert("じ"@ =~= seq!['じ']);
    assert("ji"@ =~= seq!['j', 'i']);
    assert(hepburn(seq!['じ']) is Some && hepburn(seq!['じ']).unwrap() =~= seq!['j', 'i']);
    assert(hiragana_table()[53] == ("ず"@, "zu"@));
    assert("ず"@ =~= seq!['ず']);
    assert("zu"@ =~= seq!['z', 'u']);
    assert(hepburn(seq!['ず']) is Some && hepburn(seq!['ず']).unwrap() =~= seq!['z', 'u']);
    assert(hiragana_table()[54] == ("ぜ"@, "ze"@));
    assert("ぜ"@ =~= seq!['ぜ']);
    assert("ze"@ =~= seq!['z', 'e']);
    assert(hepburn(seq!['ぜ']) is Some && hepburn(seq!['ぜ']).unwrap() =~= seq!['z', 'e']);
    assert(hiragana_table()[55] == ("ぞ"@, "zo"@));
    assert("ぞ"@ =~= seq!['ぞ']);
    assert("zo"@ =~= seq!['z', 'o']);
    assert(hepburn(seq!['ぞ']) is Some && hepburn(seq!['ぞ']).unwrap() =~= seq!['z', 'o']);
    assert forall|i: int| 48 <= i < 56 implies hepburn(#[trigger] hiragana_table()[i].0) == Some(hiragana_table()[i].1) by {
        if i == 48 {}
        if i == 49 {}
        if i == 50 {}
        if i == 51 {}
        if i == 52 {}
        if i == 53 {}
        if i == 54 {}
        if i == 55 {}
    }
}

proof fn lemma_table_romaji_56()
    ensures
        forall|i: int| 56 <= i < 64 ==> hepburn(#[trigger] hiragana_table()[i].0) == Some(hiragana_table()[i].1),
{
    reveal_strlit("だ");
    reveal_strlit("da");
    reveal_strlit("ぢ");
    reveal_strlit("ji");
    reveal_strlit("づ");
    reveal_strlit("zu");
    reveal_strlit("で");
    reveal_strlit("de");
    reveal_strlit("ど");
    reveal_strlit("do");
    reveal_strlit("ば");
    reveal_strlit("ba");
    reveal_strlit("び");
    reveal_strlit("bi");
    reveal_strlit("ぶ");
    reveal_strlit("bu");
    assert(hiragana_table()[56] == ("だ"@, "da"@));
    assert("だ"@ =~= seq!['だ']);
    assert("da"@ =~= seq!['d', 'a']);
    assert(hepburn(seq!['だ']) is Some && hepburn(seq!['だ']).unwrap() =~= seq!['d', 'a']);
    assert(hiragana_table()[57] == ("ぢ"@, "ji"@));
    assert("ぢ"@ =~= seq!['ぢ']);
    assert("ji"@ =~= seq!['j', 'i']);
    assert(hepburn(seq!['ぢ']) is Some && hepburn(seq!['ぢ']).unwrap() =~= seq!['j', 'i']);
    assert(hiragana_table()[58] == ("づ"@, "zu"@));
    assert("づ"@ =~= seq!['づ']);
    assert("zu"@ =~= seq!['z', 'u']);
    assert(hepburn(seq!['づ']) is Some && hepburn(seq!['づ']).unwrap() =~= seq!['z', 'u']);
    assert(hiragana_table()[59] == ("で"@, "de"@));
    assert("で"@ =~= seq!['で']);
    assert("de"@ =~= seq!['d', 'e']);
    assert(hepburn(seq!['で']) is Some && hepburn(seq!['で']).unwrap() =~= seq!['d', 'e']);
    assert(hiragana_table()[60] == ("ど"@, "do"@));
    assert("ど"@ =~= seq!['ど']);
    assert("do"@ =~= seq!['d', 'o']);
    assert(hepburn(seq!['ど']) is Some && hepburn(seq!['ど']).unwrap() =~= seq!['d', 'o']);
    assert(hiragana_table()[61] == ("ば"@, "ba"@));
    assert("ば"@ =~= seq!['ば']);
    assert("ba"@ =~= seq!['b', 'a']);
    assert(hepburn(seq!['ば']) is Some && hepburn(seq!['ば']).unwrap() =~= seq!['b', 'a']);
    assert(hiragana_table()[62] == ("び"@, "bi"@));
    assert("び"@ =~= seq!['び']);
    assert("bi"@ =~= seq!['b', 'i']);
    assert(hepburn(seq!['び']) is Some && hepburn(seq!['び']).unwrap() =~= seq!['b', 'i']);
    assert(hiragana_table()[63] == ("ぶ"@, "bu"@));
    assert("ぶ"@ =~= seq!['ぶ']);
    assert("bu"@ =~= seq!['b', 'u']);
    assert(hepburn(seq!['ぶ']) is Some && hepburn(seq!['ぶ']).unwrap() =~= seq!['b', 'u']);
    assert forall|i: int| 56 <= i < 64 implies hepburn(#[trigger] hiragana_table()[i].0) == Some(hiragana_table()[i].1) by {
        if i == 56 {}
        if i == 57 {}
        if i == 58 {}
        if i == 59 {}
        if i == 60 {}
        if i == 61 {}
        if i == 62 {}
        if i == 63 {}
    }
}

proof fn lemma_table_romaji_64()
    ensures
        forall|i: int| 64 <= i < 72 ==> hepburn(#[trigger] hiragana_table()[i].0) == Some(hiragana_table()[i].1),
{
    reveal_strlit("べ");
    reveal_strlit("be");
    reveal_strlit("ぼ");
    reveal_strlit("bo");
    reveal_strlit("ぱ");
    reveal_strlit("pa");
    reveal_strlit("ぴ");
    reveal_strlit("pi");
    reveal_strlit("ぷ");
    reveal_strlit("pu");
    reveal_strlit("ぺ");
    reveal_strlit("pe");
    reveal_strlit("ぽ");
    reveal_strlit("po");
    reveal_strlit("きゃ");
    reveal_strlit("kya");
    assert(hiragana_table()[64] == ("べ"@, "be"@));
    assert("べ"@ =~= seq!['べ']);
    assert("be"@ =~= seq!['b', 'e']);
    assert(hepburn(seq!['べ']) is Some && hepburn(seq!['べ']).unwrap() =~= seq!['b', 'e']);
    assert(hiragana_table()[65] == ("ぼ"@, "bo"@));
    assert("ぼ"@ =~= seq!['ぼ']);
    assert("bo"@ =~= seq!['b', 'o']);
    assert(hepburn(seq!['ぼ']) is Some && hepburn(seq!['ぼ']).unwrap() =~= seq!['b', 'o']);
    assert(hiragana_table()[66] == ("ぱ"@, "pa"@));
    assert("ぱ"@ =~= seq!['ぱ']);
    assert("pa"@ =~= seq!['p', 'a']);
    assert(hepburn(seq!['ぱ']) is Some && hepburn(seq!['ぱ']).unwrap() =~= seq!['p', 'a']);
    assert(hiragana_table()[67] == ("ぴ"@, "pi"@));
    assert("ぴ"@ =~= seq!['ぴ']);
    assert("pi"@ =~= seq!['p', 'i']);
    assert(hepburn(seq!['ぴ']) is Some && hepburn(seq!['ぴ']).unwrap() =~= seq!['p', 'i']);
    assert(hiragana_table()[68] == ("ぷ"@, "pu"@));
    assert("ぷ"@ =~= seq!['ぷ']);
    assert("pu"@ =~= seq!['p', 'u']);
    assert(hepburn(seq!['ぷ']) is Some && hepburn(seq!['ぷ']).unwrap() =~= seq!['p', 'u']);
    assert(hiragana_table()[69] == ("ぺ"@, "pe"@));
    assert("ぺ"@ =~= seq!['ぺ']);
    assert("pe"@ =~= seq!['p', 'e']);
    assert(hepburn(seq!['ぺ']) is Some && hepburn(seq!['ぺ']).unwrap() =~= seq!['p', 'e']);
    assert(hiragana_table()[70] == ("ぽ"@, "po"@));
    assert("ぽ"@ =~= seq!['ぽ']);
    assert("po"@ =~= seq!['p', 'o']);
    assert(hepburn(seq!['ぽ']) is Some && hepburn(seq!['ぽ']).unwrap() =~= seq!['p', 'o']);
    assert(hiragana_table()[71] == ("きゃ"@, "kya"@));
    assert("きゃ"@ =~= seq!['き', 'ゃ']);
    assert("kya"@ =~= seq!['k', 'y', 'a']);
    assert(hepburn(seq!['き', 'ゃ']) is Some && hepburn(seq!['き', 'ゃ']).unwrap() =~= seq!['k', 'y', 'a']);
    assert forall|i: int| 64 <= i < 72 implies hepburn(#[trigger] hiragana_table()[i].0) == Some(hiragana_table()[i].1) by {
        if i == 64 {}
        if i == 65 {}
        if i == 66 {}
        if i == 67 {}
        if i == 68 {}
        if i == 69 {}
        if i == 70 {}
        if i == 71 {}
    }
}

proof fn lemma_table_romaji_72()
    ensures
        forall|i: int| 72 <= i < 80 ==> hepburn(#[trigger] hiragana_table()[i].0) == Some(hiragana_table()[i].1),
{
    reveal_strlit("きゅ");
    reveal_strlit("kyu");
    reveal_strlit("きょ");
    reveal_strlit("kyo");
    reveal_strlit("しゃ");
    reveal_strlit("sha");
    reveal_strlit("しゅ");
    reveal_strlit("shu");
    reveal_strlit("しょ");
    reveal_strlit("sho");
    reveal_strlit("ちゃ");
    reveal_strlit("cha");
    reveal_strlit("ちゅ");
    reveal_strlit("chu");
    reveal_strlit("ちょ");
    reveal_strlit("cho");
    assert(hiragana_table()[72] == ("きゅ"@, "kyu"@));
    assert("きゅ"@ =~= seq!['き', 'ゅ']);
    assert("kyu"@ =~= seq!['k', 'y', 'u']);
    assert(hepburn(seq!['き', 'ゅ']) is Some && hepburn(seq!['き', 'ゅ']).unwrap() =~= seq!['k', 'y', 'u']);
    assert(hiragana_table()[73] == ("きょ"@, "kyo"@));
    assert("きょ"@ =~= seq!['き', 'ょ']);
    assert("kyo"@ =~= seq!['k', 'y', 'o']);
    assert(hepburn(seq!['き', 'ょ']) is Some && hepburn(seq!['き', 'ょ']).unwrap() =~= seq!['k', 'y', 'o']);
    assert(hiragana_table()[74] == ("しゃ"@, "sha"@));
    assert("しゃ"@ =~= seq!['し', 'ゃ']);
    assert("sha"@ =~= seq!['s', 'h', 'a']);
    assert(hepburn(seq!['し', 'ゃ']) is Some && hepburn(seq!['し', 'ゃ']).unwrap() =~= seq!['s', 'h', 'a']);
    assert(hiragana_table()[75] == ("しゅ"@, "shu"@));
    assert("しゅ"@ =~= seq!['し', 'ゅ']);
    assert("shu"@ =~= seq!['s', 'h', 'u']);
    assert(hepburn(seq!['し', 'ゅ']) is Some && hepburn(seq!['し', 'ゅ']).unwrap() =~= seq!['s', 'h', 'u']);
    assert(hiragana_table()[76] == ("しょ"@, "sho"@));
    assert("しょ"@ =~= seq!['し', 'ょ']);
    assert("sho"@ =~= seq!['s', 'h', 'o']);
    assert(hepburn(seq!['し', 'ょ']) is Some && hepburn(seq!['し', 'ょ']).unwrap() =~= seq!['s', 'h', 'o']);
    assert(hiragana_table()[77] == ("ちゃ"@, "cha"@));
    assert("ちゃ"@ =~= seq!['ち', 'ゃ']);
    assert("cha"@ =~= seq!['c', 'h', 'a']);
    assert(hepburn(seq!['ち', 'ゃ']) is Some && hepburn(seq!['ち', 'ゃ']).unwrap() =~= seq!['c', 'h', 'a']);
    assert(hiragana_table()[78] == ("ちゅ"@, "chu"@));
    assert("ちゅ"@ =~= seq!['ち', 'ゅ']);
    assert("chu"@ =~= seq!['c', 'h', 'u']);
    assert(hepburn(seq!['ち', 'ゅ']) is Some && hepburn(seq!['ち', 'ゅ']).unwrap() =~= seq!['c', 'h', 'u']);
    assert(hiragana_table()[79] == ("ちょ"@, "cho"@));
    assert("ちょ"@ =~= seq!['ち', 'ょ']);
    assert("cho"@ =~= seq!['c', 'h', 'o']);
    assert(hepburn(seq!['ち', 'ょ']) is Some && hepburn(seq!['ち', 'ょ']).unwrap() =~= seq!['c', 'h', 'o']);
    assert forall|i: int| 72 <= i < 80 implies hepburn(#[trigger] hiragana_table()[i].0) == Some(hiragana_table()[i].1) by {
        if i == 72 {}
        if i == 73 {}
        if i == 74 {}
        if i == 75 {}
        if i == 76 {}
        if i == 77 {}
        if i == 78 {}
        if i == 79 {}
    }
}

proof fn lemma_table_romaji_80()
    ensures
        forall|i: int| 80 <= i < 88 ==> hepburn(#[trigger] hiragana_table()[i].0) == Some(hiragana_table()[i].1),
{
    reveal_strlit("にゃ");
    reveal_strlit("nya");
    reveal_strlit("にゅ");
    reveal_strlit("nyu");
    reveal_strlit("にょ");
    reveal_strlit("nyo");
    reveal_strlit("ひゃ");
    reveal_strlit("hya");
    reveal_strlit("ひゅ");
    reveal_strlit("hyu");
    reveal_strlit("ひょ");
    reveal_strlit("hyo");
    reveal_strlit("みゃ");
    reveal_strlit("mya");
    reveal_strlit("みゅ");
    reveal_strlit("myu");
    assert(hiragana_table()[80] == ("にゃ"@, "nya"@));
    assert("にゃ"@ =~= seq!['に', 'ゃ']);
    assert("nya"@ =~= seq!['n', 'y', 'a']);
    assert(hepburn(seq!['に', 'ゃ']) is Some && hepburn(seq!['に', 'ゃ']).unwrap() =~= seq!['n', 'y', 'a']);
    assert(hiragana_table()[81] == ("にゅ"@, "nyu"@));
    assert("にゅ"@ =~= seq!['に', 'ゅ']);
    assert("nyu"@ =~= seq!['n', 'y', 'u']);
    assert(hepburn(seq!['に', 'ゅ']) is Some && hepburn(seq!['に', 'ゅ']).unwrap() =~= seq!['n', 'y', 'u']);
    assert(hiragana_table()[82] == ("にょ"@, "nyo"@));
    assert("にょ"@ =~= seq!['に', 'ょ']);
    assert("nyo"@ =~= seq!['n', 'y', 'o']);
    assert(hepburn(seq!['に', 'ょ']) is Some && hepburn(seq!['に', 'ょ']).unwrap() =~= seq!['n', 'y', 'o']);
    assert(hiragana_table()[83] == ("ひゃ"@, "hya"@));
    assert("ひゃ"@ =~= seq!['ひ', 'ゃ']);
    assert("hya"@ =~= seq!['h', 'y', 'a']);
    assert(hepburn(seq!['ひ', 'ゃ']) is Some && hepburn(seq!['ひ', 'ゃ']).unwrap() =~= seq!['h', 'y', 'a']);
    assert(hiragana_table()[84] == ("ひゅ"@, "hyu"@));
    assert("ひゅ"@ =~= seq!['ひ', 'ゅ']);
    assert("hyu"@ =~= seq!['h', 'y', 'u']);
    assert(hepburn(seq!['ひ', 'ゅ']) is Some && hepburn(seq!['ひ', 'ゅ']).unwrap() =~= seq!['h', 'y', 'u']);
    assert(hiragana_table()[85] == ("ひょ"@, "hyo"@));
    assert("ひょ"@ =~= seq!['ひ', 'ょ']);
    assert("hyo"@ =~= seq!['h', 'y', 'o']);
    assert(hepburn(seq!['ひ', 'ょ']) is Some && hepburn(seq!['ひ', 'ょ']).unwrap() =~= seq!['h', 'y', 'o']);
    assert(hiragana_table()[86] == ("みゃ"@, "mya"@));
    assert("みゃ"@ =~= seq!['み', 'ゃ']);
    assert("mya"@ =~= seq!['m', 'y', 'a']);
    assert(hepburn(seq!['み', 'ゃ']) is Some && hepburn(seq!['み', 'ゃ']).unwrap() =~= seq!['m', 'y', 'a']);
    assert(hiragana_table()[87] == ("みゅ"@, "myu"@));
    assert("みゅ"@ =~= seq!['み', 'ゅ']);
    assert("myu"@ =~= seq!['m', 'y', 'u']);
    assert(hepburn(seq!['み', 'ゅ']) is Some && hepburn(seq!['み', 'ゅ']).unwrap() =~= seq!['m', 'y', 'u']);
    assert forall|i: int| 80 <= i < 88 implies hepburn(#[trigger] hiragana_table()[i].0) == Some(hiragana_table()[i].1) by {
        if i == 80 {}
        if i == 81 {}
        if i == 82 {}
        if i == 83 {}
        if i == 84 {}
        if i == 85 {}
        if i == 86 {}
        if i == 87 {}
    }
}

proof fn lemma_table_romaji_88()
    ensures
        forall|i: int| 88 <= i < 96 ==> hepburn(#[trigger] hiragana_table()[i].0) == Some(hiragana_table()[i].1),
{
    reveal_strlit("みょ");
    reveal_strlit("myo");
    reveal_strlit("りゃ");
    reveal_strlit("rya");
    reveal_strlit("りゅ");
    reveal_strlit("ryu");
    reveal_strlit("りょ");
    reveal_strlit("ryo");
    reveal_strlit("ぎゃ");
    reveal_strlit("gya");
    reveal_strlit("ぎゅ");
    reveal_strlit("gyu");
    reveal_strlit("ぎょ");
    reveal_strlit("gyo");
    reveal_strlit("じゃ");
    reveal_strlit("ja");
    assert(hiragana_table()[88] == ("みょ"@, "myo"@));
    assert("みょ"@ =~= seq!['み', 'ょ']);
    assert("myo"@ =~= seq!['m', 'y', 'o']);
    assert(hepburn(seq!['み', 'ょ']) is Some && hepburn(seq!['み', 'ょ']).unwrap() =~= seq!['m', 'y', 'o']);
    assert(hiragana_table()[89] == ("りゃ"@, "rya"@));
    assert("りゃ"@ =~= seq!['り', 'ゃ']);
    assert("rya"@ =~= seq!['r', 'y', 'a']);
    assert(hepburn(seq!['り', 'ゃ']) is Some && hepburn(seq!['り', 'ゃ']).unwrap() =~= seq!['r', 'y', 'a']);
    assert(hiragana_table()[90] == ("りゅ"@, "ryu"@));
    assert("りゅ"@ =~= seq!['り', 'ゅ']);
    assert("ryu"@ =~= seq!['r', 'y', 'u']);
    assert(hepburn(seq!['り', 'ゅ']) is Some && hepburn(seq!['り', 'ゅ']).unwrap() =~= seq!['r', 'y', 'u']);
    assert(hiragana_table()[91] == ("りょ"@, "ryo"@));
    assert("りょ"@ =~= seq!['り', 'ょ']);
    assert("ryo"@ =~= seq!['r', 'y', 'o']);
    assert(hepburn(seq!['り', 'ょ']) is Some && hepburn(seq!['り', 'ょ']).unwrap() =~= seq!['r', 'y', 'o']);
    assert(hiragana_table()[92] == ("ぎゃ"@, "gya"@));
    assert("ぎゃ"@ =~= seq!['ぎ', 'ゃ']);
    assert("gya"@ =~= seq!['g', 'y', 'a']);
    assert(hepburn(seq!['ぎ', 'ゃ']) is Some && hepburn(seq!['ぎ', 'ゃ']).unwrap() =~= seq!['g', 'y', 'a']);
    assert(hiragana_table()[93] == ("ぎゅ"@, "gyu"@));
    assert("ぎゅ"@ =~= seq!['ぎ', 'ゅ']);
    assert("gyu"@ =~= seq!['g', 'y', 'u']);
    assert(hepburn(seq!['ぎ', 'ゅ']) is Some && hepburn(seq!['ぎ', 'ゅ']).unwrap() =~= seq!['g', 'y', 'u']);
    assert(hiragana_table()[94] == ("ぎょ"@, "gyo"@));
    assert("ぎょ"@ =~= seq!['ぎ', 'ょ']);
    assert("gyo"@ =~= seq!['g', 'y', 'o']);
    assert(hepburn(seq!['ぎ', 'ょ']) is Some && hepburn(seq!['ぎ', 'ょ']).unwrap() =~= seq!['g', 'y', 'o']);
    assert(hiragana_table()[95] == ("じゃ"@, "ja"@));
    assert("じゃ"@ =~= seq!['じ', 'ゃ']);
    assert("ja"@ =~= seq!['j', 'a']);
    assert(hepburn(seq!['じ', 'ゃ']) is Some && hepburn(seq!['じ', 'ゃ']).unwrap() =~= seq!['j', 'a']);
    assert forall|i: int| 88 <= i < 96 implies hepburn(#[trigger] hiragana_table()[i].0) == Some(hiragana_table()[i].1) by {
        if i == 88 {}
        if i == 89 {}
        if i == 90 {}
        if i == 91 {}
        if i == 92 {}
        if i == 93 {}
        if i == 94 {}
        if i == 95 {}
    }
}

proof fn lemma_table_romaji_96()
    ensures
        forall|i: int| 96 <= i < 104 ==> hepburn(#[trigger] hiragana_table()[i].0) == Some(hiragana_table()[i].1),
{
    reveal_strlit("じゅ");
    reveal_strlit("ju");
    reveal_strlit("じょ");
    reveal_strlit("jo");
    reveal_strlit("びゃ");
    reveal_strlit("bya");
    reveal_strlit("びゅ");
    reveal_strlit("byu");
    reveal_strlit("びょ");
    reveal_strlit("byo");
    reveal_strlit("ぴゃ");
    reveal_strlit("pya");
    reveal_strlit("ぴゅ");
    reveal_strlit("pyu");
    reveal_strlit("ぴょ");
    reveal_strlit("pyo");
    assert(hiragana_table()[96] == ("じゅ"@, "ju"@));
    assert("じゅ"@ =~= seq!['じ', 'ゅ']);
    assert("ju"@ =~= seq!['j', 'u']);
    assert(hepburn(seq!['じ', 'ゅ']) is Some && hepburn(seq!['じ', 'ゅ']).unwrap() =~= seq!['j', 'u']);
    assert(hiragana_table()[97] == ("じょ"@, "jo"@));
    assert("じょ"@ =~= seq!['じ', 'ょ']);
    assert("jo"@ =~= seq!['j', 'o']);
    assert(hepburn(seq!['じ', 'ょ']) is Some && hepburn(seq!['じ', 'ょ']).unwrap() =~= seq!['j', 'o']);
    assert(hiragana_table()[98] == ("びゃ"@, "bya"@));
    assert("びゃ"@ =~= seq!['び', 'ゃ']);
    assert("bya"@ =~= seq!['b', 'y', 'a']);
    assert(hepburn(seq!['び', 'ゃ']) is Some && hepburn(seq!['び', 'ゃ']).unwrap() =~= seq!['b', 'y', 'a']);
    assert(hiragana_table()[99] == ("びゅ"@, "byu"@));
    assert("びゅ"@ =~= seq!['び', 'ゅ']);
    assert("byu"@ =~= seq!['b', 'y', 'u']);
    assert(hepburn(seq!['び', 'ゅ']) is Some && hepburn(seq!['び', 'ゅ']).unwrap() =~= seq!['b', 'y', 'u']);
    assert(hiragana_table()[100] == ("びょ"@, "byo"@));
    assert("びょ"@ =~= seq!['び', 'ょ']);
    assert("byo"@ =~= seq!['b', 'y', 'o']);
    assert(hepburn(seq!['び', 'ょ']) is Some && hepburn(seq!['び', 'ょ']).unwrap() =~= seq!['b', 'y', 'o']);
    assert(hiragana_table()[101] == ("ぴゃ"@, "pya"@));
    assert("ぴゃ"@ =~= seq!['ぴ', 'ゃ']);
    assert("pya"@ =~= seq!['p', 'y', 'a']);
    assert(hepburn(seq!['ぴ', 'ゃ']) is Some && hepburn(seq!['ぴ', 'ゃ']).unwrap() =~= seq!['p', 'y', 'a']);
    assert(hiragana_table()[102] == ("ぴゅ"@, "pyu"@));
    assert("ぴゅ"@ =~= seq!['ぴ', 'ゅ']);
    assert("pyu"@ =~= seq!['p', 'y', 'u']);
    assert(hepburn(seq!['ぴ', 'ゅ']) is Some && hepburn(seq!['ぴ', 'ゅ']).unwrap() =~= seq!['p', 'y', 'u']);
    assert(hiragana_table()[103] == ("ぴょ"@, "pyo"@));
    assert("ぴょ"@ =~= seq!['ぴ', 'ょ']);
    assert("pyo"@ =~= seq!['p', 'y', 'o']);
    assert(hepburn(seq!['ぴ', 'ょ']) is Some && hepburn(seq!['ぴ', 'ょ']).unwrap() =~= seq!['p', 'y', 'o']);
    assert forall|i: int| 96 <= i < 104 implies hepburn(#[trigger] hiragana_table()[i].0) == Some(hiragana_table()[i].1) by {
        if i == 96 {}
        if i == 97 {}
        if i == 98 {}
        if i == 99 {}
        if i == 100 {}
        if i == 101 {}
        if i == 102 {}
        if i == 103 {}
    }
}

/// Every entry of the hiragana table gives its kana's Hepburn romaji, as
/// worked out from the kana's place in the Unicode block.
pub proof fn lemma_hiragana_romaji()
    ensures
        hiragana_table().len() == 104,
        forall|i: int| 0 <= i < hiragana_table().len() ==> hepburn(#[trigger] hiragana_table()[i].0) == Some(hiragana_table()[i].1),
{
    lemma_table_romaji_0();
    lemma_table_romaji_8();
    lemma_table_romaji_16();
    lemma_table_romaji_24();
    lemma_table_romaji_32();
    lemma_table_romaji_40();
    lemma_table_romaji_48();
    lemma_table_romaji_56();
    lemma_table_romaji_64();
    lemma_table_romaji_72();
    lemma_table_romaji_80();
    lemma_table_romaji_88();
    lemma_table_romaji_96();
}

// ---------------------------------------------------------------------------
// Hiragana to katakana
// ---------------------------------------------------------------------------

/// Whether `c` lies in the hiragana letters U+3041..=U+3096.
pub open spec fn in_hiragana_block(c: char) -> bool {
    0x3041 <= c as u32 <= 0x3096
}

/// The katakana for a hiragana letter (its code point plus 0x60); any other
/// character stays as it is.
pub open spec fn katakana_char(c: char) -> char {
    if in_hiragana_block(c) {
        (c as u32 + 0x60) as char
    } else {
        c
    }
}

/// `s` with each hiragana letter replaced by its katakana.
pub open spec fn katakana(s: Seq<char>) -> Seq<char> {
    s.map_values(|c: char| katakana_char(c))
}

/// Whether `i` is the code point of a `char`: not above U+10FFFF and not a
/// surrogate.
pub open spec fn is_char_code(i: u32) -> bool {
    i <= 0xD7FF || (0xE000 <= i && i <= 0x10FFFF)
}

/// std's `char::from_u32`: the `char` with code point `i`, if there is one.
#[verifier::external_body]
fn char_from_u32(i: u32) -> (r: Option<char>)
    ensures
        r is Some <==> is_char_code(i),
        r matches Some(c) ==> c == i as char,
{
    char::from_u32(i)
}

/// Converts the hiragana letters of `s` to katakana.
pub fn to_katakana(s: &str) -> (r: String)
    ensures
        r@ == katakana(s@),
{
    let cs = chars_of(s);
    let mut r = String::new();
    let mut i: usize = 0;
    while i < cs.len()
        invariant
            i <= cs@.len(),
            r@ == katakana(cs@.take(i as int)),
        decreases cs@.len() - i,
    {
        let ch = cs[i];
        let cp = ch as u32;
        let k = if 0x3041 <= cp && cp <= 0x3096 {
            match char_from_u32(cp + 0x60) {
                Some(k) => {
                    k
                },
                None => {
                    assert(is_char_code((cp + 0x60) as u32));
                    ch
                },
            }
        } else {
            ch
        };
        assert(k == katakana_char(ch));
        push_char(&mut r, k);
        assert(katakana(cs@.take(i as int)).push(katakana_char(ch)) =~= katakana(cs@.take(i + 1)));
        i = i + 1;
    }
    assert(cs@.take(cs@.len() as int) =~= cs@);
    r
}

/// Converting to katakana a second time changes nothing.
pub proof fn lemma_katakana_idempotent(s: Seq<char>)
    ensures
        katakana(katakana(s)) == katakana(s),
{
    assert forall|i: int| 0 <= i < s.len() implies katakana_char(katakana_char(s[i]))
        == katakana_char(s[i]) by {
        let c = s[i];
        if in_hiragana_block(c) {
            assert((c as u32 + 0x60) as char as u32 == c as u32 + 0x60);
        }
    }
    assert(katakana(katakana(s)) =~= katakana(s));
}

/// Converting to katakana keeps the number of characters.
pub proof fn lemma_katakana_len(s: Seq<char>)
    ensures
        katakana(s).len() == s.len(),
{
}

/// Converting to katakana moves each hiragana letter (U+3041 to U+3096) up by
/// 0x60 code points and keeps every other character; so what it gives holds
/// no hiragana letter at all.
pub proof fn lemma_katakana_code_points(s: Seq<char>)
    ensures
        katakana(s).len() == s.len(),
        forall|i: int|
            0 <= i < s.len() && 0x3041 <= s[i] as u32 <= 0x3096 ==> #[trigger] katakana(s)[i]
                as u32 == s[i] as u32 + 0x60,
        forall|i: int|
            0 <= i < s.len() && !(0x3041 <= s[i] as u32 <= 0x3096) ==> #[trigger] katakana(s)[i]
                == s[i],
        forall|i: int| 0 <= i < s.len() ==> !(0x3041 <= #[trigger] katakana(s)[i] as u32 <= 0x3096),
{
    assert forall|i: int| 0 <= i < s.len() && 0x3041 <= s[i] as u32 <= 0x3096 implies #[trigger] katakana(
        s,
    )[i] as u32 == s[i] as u32 + 0x60 by {
        let c = s[i];
        assert((c as u32 + 0x60) as char as u32 == c as u32 + 0x60);
    }
    assert forall|i: int| 0 <= i < s.len() implies !(0x3041 <= #[trigger] katakana(s)[i] as u32
        <= 0x3096) by {
        let c = s[i];
        if 0x3041 <= c as u32 <= 0x3096 {
            assert((c as u32 + 0x60) as char as u32 == c as u32 + 0x60);
        }
    }
}

// ---------------------------------------------------------------------------
// The practice set
// ---------------------------------------------------------------------------

/// Which script a practice uses.
#[derive(Clone, Copy, Debug, PartialEq, Eq, Structural)]
pub enum ScriptMode {
    Hiragana,
    Katakana,
    Mixed,
}

/// Which way a practice asks.
#[derive(Clone, Copy, Debug, PartialEq, Eq, Structural)]
pub enum Direction {
    KanaToRomaji,
    RomajiToKana,
}

/// The reply that selects each script: `h`, `k` or `m`, in either case.
pub open spec fn script_choice(s: Seq<char>) -> Option<ScriptMode> {
    if s == seq!['h'] || s == seq!['H'] {
        Some(ScriptMode::Hiragana)
    } else if s == seq!['k'] || s == seq!['K'] {
        Some(ScriptMode::Katakana)
    } else if s == seq!['m'] || s == seq!['M'] {
        Some(ScriptMode::Mixed)
    } else {
        None
    }
}

/// The script that a (trimmed) reply selects, or `None` when it selects none.
pub fn parse_script_choice(s: &str) -> (r: Option<ScriptMode>)
    ensures
        r == script_choice(s@),
{
    let cs = chars_of(s);
    if cs.len() != 1 {
        return None;
    }
    let c = cs[0];
    assert(cs@ =~= seq![c]);
    if c == 'h' || c == 'H' {
        Some(ScriptMode::Hiragana)
    } else if c == 'k' || c == 'K' {
        Some(ScriptMode::Katakana)
    } else if c == 'm' || c == 'M' {
        Some(ScriptMode::Mixed)
    } else {
        None
    }
}

/// The reply that selects each direction: `1` for kana to romaji, `2` for
/// romaji to kana.
pub open spec fn direction_choice(s: Seq<char>) -> Option<Direction> {
    if s == seq!['1'] {
        Some(Direction::KanaToRomaji)
    } else if s == seq!['2'] {
        Some(Direction::RomajiToKana)
    } else {
        None
    }
}

/// The direction that a (trimmed) reply selects, or `None` when it selects none.
pub fn parse_direction(s: &str) -> (r: Option<Direction>)
    ensures
        r == direction_choice(s@),
{
    let cs = chars_of(s);
    if cs.len() != 1 {
        return None;
    }
    let c = cs[0];
    assert(cs@ =~= seq![c]);
    if c == '1' {
        Some(Direction::KanaToRomaji)
    } else if c == '2' {
        Some(Direction::RomajiToKana)
    } else {
        None
    }
}

/// The menu replies: `h`, `k` and `m` choose three different scripts, each
/// in either case, and `1` and `2` the two directions; only a reply of one
/// character chooses anything.
pub proof fn lemma_menu_replies(s: Seq<char>)
    ensures
        script_choice(seq!['h']) == Some(ScriptMode::Hiragana),
        script_choice(seq!['k']) == Some(ScriptMode::Katakana),
        script_choice(seq!['m']) == Some(ScriptMode::Mixed),
        script_choice(seq!['H']) == script_choice(seq!['h']),
        script_choice(seq!['K']) == script_choice(seq!['k']),
        script_choice(seq!['M']) == script_choice(seq!['m']),
        direction_choice(seq!['1']) == Some(Direction::KanaToRomaji),
        direction_choice(seq!['2']) == Some(Direction::RomajiToKana),
        script_choice(s) is Some ==> s.len() == 1,
        direction_choice(s) is Some ==> s.len() == 1,
{
    assert(seq!['h'] != seq!['H']) by {
        assert(seq!['h'][0] != seq!['H'][0]);
    }
    assert(seq!['k'] != seq!['h'] && seq!['k'] != seq!['H']) by {
        assert(seq!['k'][0] != seq!['h'][0]);
        assert(seq!['k'][0] != seq!['H'][0]);
    }
    assert(seq!['K'] != seq!['h'] && seq!['K'] != seq!['H']) by {
        assert(seq!['K'][0] != seq!['h'][0]);
        assert(seq!['K'][0] != seq!['H'][0]);
    }
    assert(seq!['m'] != seq!['h'] && seq!['m'] != seq!['H'] && seq!['m'] != seq!['k'] && seq!['m']
        != seq!['K']) by {
        assert(seq!['m'][0] != seq!['h'][0]);
        assert(seq!['m'][0] != seq!['H'][0]);
        assert(seq!['m'][0] != seq!['k'][0]);
        assert(seq!['m'][0] != seq!['K'][0]);
    }
    assert(seq!['M'] != seq!['h'] && seq!['M'] != seq!['H'] && seq!['M'] != seq!['k'] && seq!['M']
        != seq!['K']) by {
        assert(seq!['M'][0] != seq!['h'][0]);
        assert(seq!['M'][0] != seq!['H'][0]);
        assert(seq!['M'][0] != seq!['k'][0]);
        assert(seq!['M'][0] != seq!['K'][0]);
    }
    assert(seq!['2'] != seq!['1']) by {
        assert(seq!['2'][0] != seq!['1'][0]);
    }
}

/// The number of rounds that a (trimmed) reply asks for: `None` when it is no
/// number, `Some(None)` for 0 (no limit), `Some(Some(n))` for any other `n`.
pub open spec fn rounds_choice(s: Seq<char>) -> Option<Option<usize>> {
    match usize_parsed(s) {
        None => None,
        Some(n) => if n == 0 {
            Some(None)
        } else {
            Some(Some(n))
        },
    }
}

/// A reply that is a number asks for that many rounds, a reply of 0 for no
/// limit, and any other reply is refused; a number of rounds that is chosen
/// is never 0. Written out in decimal, every number `n` above 0 chooses
/// exactly `n` rounds, and 0 chooses no limit.
pub proof fn lemma_rounds_reply(s: Seq<char>, n: usize)
    ensures
        usize_parsed(s) == Some(n) && n > 0 ==> rounds_choice(s) == Some(Some(n)),
        rounds_choice(s) == Some(None::<usize>) <==> usize_parsed(s) == Some(0usize),
        rounds_choice(s) is None <==> usize_parsed(s) is None,
        rounds_choice(s) matches Some(Some(m)) ==> m > 0 && usize_parsed(s) == Some(m),
        n > 0 ==> rounds_choice(decimal_digits(n as nat)) == Some(Some(n)),
        rounds_choice(decimal_digits(0)) == Some(None::<usize>),
{
    lemma_parse_decimal_round_trip(n);
    lemma_parse_decimal_round_trip(0);
}

/// The number of rounds that a (trimmed) reply asks for.
pub fn parse_rounds(s: &str) -> (r: Option<Option<usize>>)
    ensures
        r == rounds_choice(s@),
{
    match parse_usize(s) {
        None => None,
        Some(n) => if n == 0 {
            Some(None)
        } else {
            Some(Some(n))
        },
    }
}

/// The pairs with their kana converted to katakana.
pub open spec fn katakana_pairs(v: Seq<(Seq<char>, Seq<char>)>) -> Seq<(Seq<char>, Seq<char>)> {
    v.map_values(|p: (Seq<char>, Seq<char>)| (katakana(p.0), p.1))
}

/// The pairs that a practice in `mode` draws from.
pub open spec fn practice_set(mode: ScriptMode) -> Seq<(Seq<char>, Seq<char>)> {
    match mode {
        ScriptMode::Hiragana => hiragana_table(),
        ScriptMode::Katakana => katakana_pairs(hiragana_table()),
        ScriptMode::Mixed => hiragana_table() + katakana_pairs(hiragana_table()),
    }
}

/// The practice sets: the hiragana set is the table; the katakana set has,
/// entry for entry, the table's romaji with the kana moved to katakana, so
/// that no hiragana letter is left in it; the mixed set is the hiragana set
/// followed by the katakana set.
pub proof fn lemma_practice_sets()
    ensures
        practice_set(ScriptMode::Hiragana) == hiragana_table(),
        practice_set(ScriptMode::Katakana).len() == hiragana_table().len(),
        forall|i: int|
            0 <= i < hiragana_table().len() ==> {
                let k = #[trigger] practice_set(ScriptMode::Katakana)[i];
                &&& k.1 == hiragana_table()[i].1
                &&& k.0.len() == hiragana_table()[i].0.len()
                &&& forall|j: int|
                    0 <= j < k.0.len() ==> !(0x3041 <= #[trigger] k.0[j] as u32 <= 0x3096)
            },
        practice_set(ScriptMode::Mixed) == practice_set(ScriptMode::Hiragana) + practice_set(
            ScriptMode::Katakana,
        ),
{
    assert forall|i: int| 0 <= i < hiragana_table().len() implies {
        let k = #[trigger] practice_set(ScriptMode::Katakana)[i];
        &&& k.1 == hiragana_table()[i].1
        &&& k.0.len() == hiragana_table()[i].0.len()
        &&& forall|j: int| 0 <= j < k.0.len() ==> !(0x3041 <= #[trigger] k.0[j] as u32 <= 0x3096)
    } by {
        lemma_katakana_code_points(hiragana_table()[i].0);
    }
}

/// The same pairs with their kana converted to katakana.
fn to_katakana_pairs(v: &Vec<(String, String)>) -> (r: Vec<(String, String)>)
    ensures
        pairs_view(r@) == katakana_pairs(pairs_view(v@)),
{
    let mut r: Vec<(String, String)> = Vec::new();
    let mut i: usize = 0;
    while i < v.len()
        invariant
            i <= v@.len(),
            pairs_view(r@) == katakana_pairs(pairs_view(v@.take(i as int))),
        decreases v@.len() - i,
    {
        let k = to_katakana(v[i].0.as_str());
        let romaji = v[i].1.clone();
        let ghost before = r@;
        r.push((k, romaji));
        assert(r@ == before.push((k, romaji)));
        assert(pairs_view(v@.take(i + 1)) =~= pairs_view(v@.take(i as int)).push(
            pair_view(v@[i as int]),
        ));
        assert(pairs_view(r@) =~= pairs_view(before).push(pair_view((k, romaji))));
        assert(pairs_view(r@) =~= katakana_pairs(pairs_view(v@.take(i + 1))));
        i = i + 1;
    }
    assert(v@.take(v@.len() as int) =~= v@);
    r
}

/// The pairs for a practice in `mode`: the hiragana table, its katakana
/// form, or both (hiragana first).
pub fn build_pairs(mode: ScriptMode) -> (r: Vec<(String, String)>)
    ensures
        pairs_view(r@) == practice_set(mode),
{
    let mut pairs = hiragana_pairs();
    match mode {
        ScriptMode::Hiragana => pairs,
        ScriptMode::Katakana => to_katakana_pairs(&pairs),
        ScriptMode::Mixed => {
            let mut extra = to_katakana_pairs(&pairs);
            let ghost first = pairs@;
            let ghost second = extra@;
            pairs.append(&mut extra);
            assert(pairs_view(pairs@) =~= pairs_view(first) + pairs_view(second));
            pairs
        },
    }
}

} // verus!

verus! {

// ---------------------------------------------------------------------------
// A round-based practice
// ---------------------------------------------------------------------------

/// std's `rand::seq::SliceRandom::choose` with the thread-local generator:
/// one element of a non-empty slice, picked at random. Which one is left
/// unsaid; it is always an element of the slice.
#[verifier::external_body]
fn choose_one<'a, T>(items: &'a [T]) -> (r: &'a T)
    requires
        items@.len() > 0,
    ensures
        items@.contains(*r),
{
    items.choose(&mut rand::thread_rng()).unwrap()
}

/// What a practice asks: the text shown and the answer expected.
pub struct Question {
    pub prompt: String,
    pub expected: String,
}

/// The (prompt, expected answer) of a pair in a direction.
pub open spec fn oriented(p: (Seq<char>, Seq<char>), direction: Direction) -> (Seq<char>, Seq<char>) {
    match direction {
        Direction::KanaToRomaji => (p.0, p.1),
        Direction::RomajiToKana => (p.1, p.0),
    }
}

/// The state of a practice, as plain values.
pub struct QuizView {
    pub pairs: Seq<(Seq<char>, Seq<char>)>,
    pub direction: Direction,
    pub rounds: Option<usize>,
    pub score: nat,
    pub asked: nat,
    pub pending: Option<Seq<char>>,
}

/// Whether a practice in this state has asked all its rounds.
pub open spec fn quiz_finished(q: QuizView) -> bool {
    match q.rounds {
        Some(max) => q.asked >= max,
        None => false,
    }
}

/// A practice over kana pairs: it asks a random pair per round, up to a
/// number of rounds or without limit, and counts the right answers.
pub struct KanaQuiz {
    pairs: Vec<(String, String)>,
    direction: Direction,
    rounds: Option<usize>,
    score: usize,
    asked: usize,
    pending: Option<String>,
}

impl View for KanaQuiz {
    type V = QuizView;

    closed spec fn view(&self) -> QuizView {
        QuizView {
            pairs: pairs_view(self.pairs@),
            direction: self.direction,
            rounds: self.rounds,
            score: self.score as nat,
            asked: self.asked as nat,
            pending: match self.pending {
                Some(e) => Some(e@),
                None => None,
            },
        }
    }
}

/// What holds of every practice: it has pairs to ask, unless it asks no
/// round at all; the right answers,
/// with the question still open, never outnumber the questions asked; and
/// a practice with a number of rounds never asks more.
pub open spec fn quiz_valid(q: QuizView) -> bool {
    &&& (q.pairs.len() > 0 || q.rounds == Some(0usize))
    &&& q.score + (if q.pending is Some { 1int } else { 0int }) <= q.asked
    &&& (q.rounds matches Some(max) ==> q.asked <= max)
}

impl KanaQuiz {
    #[verifier::type_invariant]
    closed spec fn inv(self) -> bool {
        quiz_valid(self@)
    }

    /// A practice over `pairs` (which may be empty only when no round is to
    /// be asked), asking in
    /// `direction`, for `rounds` rounds or, with `None`, without limit.
    pub fn new(pairs: Vec<(String, String)>, direction: Direction, rounds: Option<usize>) -> (r:
        Self)
        requires
            pairs@.len() > 0 || rounds == Some(0usize),
        ensures
            r@ == (QuizView {
                pairs: pairs_view(pairs@),
                direction,
                rounds,
                score: 0,
                asked: 0,
                pending: None,
            }),
            quiz_valid(r@),
    {
        KanaQuiz { pairs, direction, rounds, score: 0, asked: 0, pending: None }
    }

    /// The number of right answers so far.
    pub fn score(&self) -> (r: usize)
        ensures
            r == self@.score,
    {
        self.score
    }

    /// The number of questions asked so far.
    pub fn asked(&self) -> (r: usize)
        ensures
            r == self@.asked,
    {
        self.asked
    }

    /// Whether the practice has no limit on the number of rounds.
    pub fn is_unlimited(&self) -> (r: bool)
        ensures
            r == (self@.rounds is None),
    {
        self.rounds.is_none()
    }

    /// Starts the next round: `None` once all rounds are asked; otherwise a
    /// question about a pair of the practice, picked at random, which the
    /// next answer is checked against.
    pub fn next_question(&mut self) -> (r: Option<Question>)
        requires
            old(self)@.rounds is Some || old(self)@.asked < usize::MAX,
        ensures
            quiz_finished(old(self)@) ==> r is None && final(self)@ == old(self)@,
            !quiz_finished(old(self)@) ==> (r matches Some(q) && {
                &&& exists|i: int|
                    0 <= i < old(self)@.pairs.len() && #[trigger] oriented(
                        old(self)@.pairs[i],
                        old(self)@.direction,
                    ) == (q.prompt@, q.expected@)
                &&& final(self)@ == (QuizView {
                    asked: old(self)@.asked + 1,
                    pending: Some(q.expected@),
                    ..old(self)@
                })
            }),
            quiz_valid(final(self)@),
    {
        proof {
            use_type_invariant(&*self);
        }
        if let Some(max) = self.rounds {
            if self.asked >= max {
                return None;
            }
        }
        let pair = choose_one(self.pairs.as_slice());
        let ghost i = choose|i: int| 0 <= i < self.pairs@.len() && self.pairs@[i] == *pair;
        let (prompt, expected) = match self.direction {
            Direction::KanaToRomaji => (pair.0.clone(), pair.1.clone()),
            Direction::RomajiToKana => (pair.1.clone(), pair.0.clone()),
        };
        assert(pairs_view(self.pairs@)[i] == pair_view(*pair));
        assert(oriented(self@.pairs[i], self@.direction) == (prompt@, expected@));
        self.asked = self.asked + 1;
        self.pending = Some(expected.clone());
        proof {
            use_type_invariant(&*self);
        }
        Some(Question { prompt, expected })
    }

    /// Checks `reply` against the open question, if there is one: right when
    /// both, trimmed and in lower case, are equal. A right answer adds one to
    /// the score; the question is then closed.
    pub fn answer(&mut self, reply: &str) -> (r: Option<bool>)
        ensures
            old(self)@.pending is None ==> r is None && final(self)@ == old(self)@,
            old(self)@.pending matches Some(e) ==> {
                let right = normalized(reply@) == normalized(e);
                &&& r == Some(right)
                &&& final(self)@ == (QuizView {
                    score: old(self)@.score + (if right { 1nat } else { 0nat }),
                    pending: None,
                    ..old(self)@
                })
            },
            quiz_valid(final(self)@),
    {
        proof {
            use_type_invariant(&*self);
        }
        let expected = match &self.pending {
            None => {
                return None;
            },
            Some(e) => e.clone(),
        };
        self.pending = None;
        let right = normalize_answer(reply) == normalize_answer(expected.as_str());
        if right {
            self.score = self.score + 1;
        }
        proof {
            use_type_invariant(&*self);
        }
        Some(right)
    }
}

/// Whether a reply asks to stop an unlimited practice: `q` or `Q`, around
/// whitespace.
pub open spec fn is_quit_reply(s: Seq<char>) -> bool {
    trimmed(s) == seq!['q'] || trimmed(s) == seq!['Q']
}

/// A reply asks to stop exactly when, trimmed, it is the one letter q in
/// either case; whitespace around it changes nothing.
pub proof fn lemma_quit_reply(s: Seq<char>)
    ensures
        is_quit_reply(s) <==> (trimmed(s).len() == 1 && (trimmed(s)[0] == 'q' || trimmed(s)[0]
            == 'Q')),
        is_quit_reply(trimmed(s)) == is_quit_reply(s),
{
    crate::text::lemma_trimmed_idempotent(s);
    let t = trimmed(s);
    if t.len() == 1 {
        if t[0] == 'q' {
            assert(t =~= seq!['q']);
        }
        if t[0] == 'Q' {
            assert(t =~= seq!['Q']);
        }
    }
}

/// Whether a reply asks to stop an unlimited practice.
pub fn wants_to_quit(reply: &str) -> (r: bool)
    ensures
        r == is_quit_reply(reply@),
{
    let t = trim(reply);
    let cs = chars_of(t.as_str());
    if cs.len() != 1 {
        return false;
    }
    let c = cs[0];
    assert(cs@ =~= seq![c]);
    c == 'q' || c == 'Q'
}

} // verus!
