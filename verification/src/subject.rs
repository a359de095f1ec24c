use vstd::prelude::*;
use vstd::string::StringExecFns;

use crate::json::{
    get_array, get_bool, get_str, get_u64, json_array, json_bool, json_get, json_str, json_u64, views,
    Json, JsonView,
};

verus! {

// ---------------------------------------------------------------------------
// Subjects
// ---------------------------------------------------------------------------

/// A kanji subject: its id, its characters, its meanings (the primary one
/// first) and its readings.
#[derive(Debug)]
pub struct Subject {
    pub id: u64,
    pub characters: String,
    pub meanings: Vec<String>,
    pub readings: Vec<String>,
}

/// A subject, as plain values.
pub struct SubjectView {
    pub id: u64,
    pub characters: Seq<char>,
    pub meanings: Seq<Seq<char>>,
    pub readings: Seq<Seq<char>>,
}

pub open spec fn strings_view(v: Seq<String>) -> Seq<Seq<char>> {
    v.map_values(|s: String| s@)
}

impl View for Subject {
    type V = SubjectView;

    open spec fn view(&self) -> SubjectView {
        SubjectView {
            id: self.id,
            characters: self.characters@,
            meanings: strings_view(self.meanings@),
            readings: strings_view(self.readings@),
        }
    }
}

/// The text under `meaning` of a meaning entry.
pub open spec fn meaning_text(m: JsonView) -> Option<Seq<char>> {
    json_str(json_get(m, "meaning"@))
}

/// Whether a meaning entry is marked primary.
pub open spec fn marked_primary(m: JsonView) -> bool {
    json_bool(json_get(m, "primary"@)) == Some(true)
}

/// The text of the first entry that is marked primary and has a text.
pub open spec fn primary_meaning(ms: Seq<JsonView>) -> Option<Seq<char>>
    decreases ms.len(),
{
    if ms.len() == 0 {
        None
    } else if marked_primary(ms[0]) && meaning_text(ms[0]) is Some {
        meaning_text(ms[0])
    } else {
        primary_meaning(ms.drop_first())
    }
}

/// `acc` followed by the texts of the entries of `ms`, each left out that is
/// already there.
pub open spec fn add_new_meanings(acc: Seq<Seq<char>>, ms: Seq<JsonView>) -> Seq<Seq<char>>
    decreases ms.len(),
{
    if ms.len() == 0 {
        acc
    } else {
        let next = match meaning_text(ms[0]) {
            Some(t) => if acc.contains(t) {
                acc
            } else {
                acc.push(t)
            },
            None => acc,
        };
        add_new_meanings(next, ms.drop_first())
    }
}

/// The meanings of a subject's data: the primary one first, then the other
/// texts in order, each once.
pub open spec fn meanings_of(data: JsonView) -> Seq<Seq<char>> {
    match json_array(json_get(data, "meanings"@)) {
        Some(ms) => {
            let start = match primary_meaning(ms) {
                Some(p) => seq![p],
                None => Seq::empty(),
            };
            add_new_meanings(start, ms)
        },
        None => Seq::empty(),
    }
}

/// The texts under `reading` of the entries of `rs` that have one, in order.
pub open spec fn reading_texts(rs: Seq<JsonView>) -> Seq<Seq<char>>
    decreases rs.len(),
{
    if rs.len() == 0 {
        Seq::empty()
    } else {
        let first = match json_str(json_get(rs[0], "reading"@)) {
            Some(t) => seq![t],
            None => Seq::empty(),
        };
        first + reading_texts(rs.drop_first())
    }
}

/// The readings of a subject's data.
pub open spec fn readings_of(data: JsonView) -> Seq<Seq<char>> {
    match json_array(json_get(data, "readings"@)) {
        Some(rs) => reading_texts(rs),
        None => Seq::empty(),
    }
}

/// The subject that a WaniKani subject value describes: it needs an unsigned
/// integer `id` and a `data` member; the characters are empty when
/// `data.characters` is no string.
pub open spec fn subject_of(v: JsonView) -> Option<SubjectView> {
    match (json_u64(json_get(v, "id"@)), json_get(v, "data"@)) {
        (Some(id), Some(data)) => Some(
            SubjectView {
                id,
                characters: match json_str(json_get(data, "characters"@)) {
                    Some(c) => c,
                    None => Seq::empty(),
                },
                meanings: meanings_of(data),
                readings: readings_of(data),
            },
        ),
        _ => None,
    }
}

fn contains_text(v: &Vec<String>, s: &String) -> (r: bool)
    ensures
        r == strings_view(v@).contains(s@),
{
    let mut i: usize = 0;
    while i < v.len()
        invariant
            i <= v@.len(),
            forall|k: int| 0 <= k < i ==> v@[k]@ != s@,
        decreases v@.len() - i,
    {
        if v[i] == *s {
            assert(strings_view(v@)[i as int] == s@);
            return true;
        }
        i = i + 1;
    }
    assert forall|k: int| 0 <= k < strings_view(v@).len() implies strings_view(v@)[k] != s@ by {
        assert(strings_view(v@)[k] == v@[k]@);
    }
    false
}

fn primary_of(ms: &Vec<Json>, meaning_key: &String, primary_key: &String) -> (r: Option<String>)
    requires
        meaning_key@ == "meaning"@,
        primary_key@ == "primary"@,
    ensures
        match r {
            Some(t) => primary_meaning(views(ms@)) == Some(t@),
            None => primary_meaning(views(ms@)) is None,
        },
{
    let ghost msv = views(ms@);
    let mut i: usize = 0;
    assert(msv.skip(0) =~= msv);
    while i < ms.len()
        invariant
            i <= ms@.len(),
            msv == views(ms@),
            meaning_key@ == "meaning"@,
            primary_key@ == "primary"@,
            primary_meaning(msv) == primary_meaning(msv.skip(i as int)),
        decreases ms@.len() - i,
    {
        assert(msv.skip(i as int).drop_first() =~= msv.skip(i + 1));
        assert(msv.skip(i as int)[0] == ms@[i as int]@);
        let is_primary = match get_bool(&ms[i], primary_key) {
            Some(b) => b,
            None => false,
        };
        if is_primary {
            if let Some(t) = get_str(&ms[i], meaning_key) {
                return Some(t.clone());
            }
        }
        i = i + 1;
    }
    None
}

impl Subject {
    /// Reads a subject from a WaniKani subject value
    /// (`{ id, data: { characters, meanings: [..], readings: [..] } }`).
    pub fn from_wanikani_value(v: &Json) -> (r: Option<Subject>)
        ensures
            match r {
                Some(s) => subject_of(v@) == Some(s@),
                None => subject_of(v@) is None,
            },
    {
        let id_key = String::from_str("id");
        let data_key = String::from_str("data");
        let id = match get_u64(v, &id_key) {
            Some(n) => n,
            None => {
                return None;
            },
        };
        let data = match crate::json::get(v, &data_key) {
            Some(d) => d,
            None => {
                return None;
            },
        };
        let characters_key = String::from_str("characters");
        let characters = match get_str(data, &characters_key) {
            Some(c) => c.clone(),
            None => String::new(),
        };
        let meanings_key = String::from_str("meanings");
        let meaning_key = String::from_str("meaning");
        let primary_key = String::from_str("primary");
        let mut meanings: Vec<String> = Vec::new();
        if let Some(ms) = get_array(data, &meanings_key) {
            if let Some(p) = primary_of(ms, &meaning_key, &primary_key) {
                meanings.push(p);
            }
            proof {
                assert(strings_view(meanings@) =~= match primary_meaning(views(ms@)) {
                    Some(p) => seq![p],
                    None => Seq::<Seq<char>>::empty(),
                });
            }
            let ghost start = strings_view(meanings@);
            let ghost msv = views(ms@);
            let mut i: usize = 0;
            assert(msv.skip(0) =~= msv);
            while i < ms.len()
                invariant
                    i <= ms@.len(),
                    msv == views(ms@),
                    meaning_key@ == "meaning"@,
                    add_new_meanings(start, msv) == add_new_meanings(
                        strings_view(meanings@),
                        msv.skip(i as int),
                    ),
                decreases ms@.len() - i,
            {
                assert(msv.skip(i as int).drop_first() =~= msv.skip(i + 1));
                assert(msv.skip(i as int)[0] == ms@[i as int]@);
                if let Some(t) = get_str(&ms[i], &meaning_key) {
                    if !contains_text(&meanings, t) {
                        let ghost before = meanings@;
                        meanings.push(t.clone());
                        assert(strings_view(meanings@) =~= strings_view(before).push(t@));
                    }
                }
                i = i + 1;
            }
            assert(msv.skip(msv.len() as int) =~= Seq::<JsonView>::empty());
        }
        let readings_key = String::from_str("readings");
        let reading_key = String::from_str("reading");
        let mut readings: Vec<String> = Vec::new();
        if let Some(rs) = get_array(data, &readings_key) {
            let ghost rsv = views(rs@);
            let mut i: usize = 0;
            assert(rsv.skip(0) =~= rsv);
            assert(strings_view(readings@) =~= Seq::<Seq<char>>::empty());
            while i < rs.len()
                invariant
                    i <= rs@.len(),
                    rsv == views(rs@),
                    reading_key@ == "reading"@,
                    reading_texts(rsv) == strings_view(readings@) + reading_texts(
                        rsv.skip(i as int),
                    ),
                decreases rs@.len() - i,
            {
                assert(rsv.skip(i as int).drop_first() =~= rsv.skip(i + 1));
                assert(rsv.skip(i as int)[0] == rs@[i as int]@);
                let ghost before = readings@;
                if let Some(t) = get_str(&rs[i], &reading_key) {
                    readings.push(t.clone());
                    assert(strings_view(readings@) =~= strings_view(before) + seq![t@]);
                } else {
                    assert(strings_view(readings@) =~= strings_view(before) + Seq::empty());
                }
                i = i + 1;
            }
            assert(rsv.skip(rsv.len() as int) =~= Seq::<JsonView>::empty());
            assert(strings_view(readings@) + Seq::<Seq<char>>::empty() =~= strings_view(
                readings@,
            ));
        } else {
            assert(strings_view(readings@) =~= Seq::<Seq<char>>::empty());
        }
        Some(Subject { id, characters, meanings, readings })
    }
}


fn clone_strings(v: &Vec<String>) -> (r: Vec<String>)
    ensures
        strings_view(r@) == strings_view(v@),
{
    let mut r: Vec<String> = Vec::new();
    let mut i: usize = 0;
    while i < v.len()
        invariant
            i <= v@.len(),
            strings_view(r@) == strings_view(v@.take(i as int)),
        decreases v@.len() - i,
    {
        let ghost before = r@;
        let c = v[i].clone();
        r.push(c);
        assert(strings_view(v@.take(i + 1)) =~= strings_view(v@.take(i as int)).push(v@[i as int]@));
        assert(strings_view(r@) =~= strings_view(before).push(c@));
        i = i + 1;
    }
    assert(v@.take(v@.len() as int) =~= v@);
    r
}

impl Clone for Subject {
    /// A copy of the subject.
    fn clone(&self) -> (r: Self)
        ensures
            r@ == self@,
    {
        Subject {
            id: self.id,
            characters: self.characters.clone(),
            meanings: clone_strings(&self.meanings),
            readings: clone_strings(&self.readings),
        }
    }
}

// ---------------------------------------------------------------------------
// What the meanings hold
// ---------------------------------------------------------------------------

proof fn lemma_add_new_meanings(acc: Seq<Seq<char>>, ms: Seq<JsonView>)
    requires
        acc.no_duplicates(),
    ensures
        add_new_meanings(acc, ms).no_duplicates(),
        acc.len() <= add_new_meanings(acc, ms).len(),
        add_new_meanings(acc, ms).take(acc.len() as int) == acc,
    decreases ms.len(),
{
    if ms.len() > 0 {
        let next = match meaning_text(ms[0]) {
            Some(t) => if acc.contains(t) {
                acc
            } else {
                acc.push(t)
            },
            None => acc,
        };
        lemma_add_new_meanings(next, ms.drop_first());
        let r = add_new_meanings(acc, ms);
        assert(r.take(next.len() as int).take(acc.len() as int) =~= r.take(acc.len() as int));
        assert(next.take(acc.len() as int) =~= acc);
    } else {
        assert(acc.take(acc.len() as int) =~= acc);
    }
}

proof fn lemma_filter_map_prepend<A, B>(x: A, s: Seq<A>, f: spec_fn(A) -> Option<B>)
    ensures
        (seq![x] + s).filter_map(f) == (match f(x) {
            Some(b) => seq![b],
            None => Seq::<B>::empty(),
        }) + s.filter_map(f),
    decreases s.len(),
{
    let t = seq![x] + s;
    if s.len() == 0 {
        assert(t =~= seq![x]);
        Seq::<A>::lemma_filter_map_singleton(x, f);
        assert(s.filter_map(f) =~= Seq::<B>::empty());
        assert(t.filter_map(f) =~= (match f(x) {
            Some(b) => seq![b],
            None => Seq::<B>::empty(),
        }) + s.filter_map(f));
    } else {
        lemma_filter_map_prepend(x, s.drop_last(), f);
        assert(t.drop_last() =~= seq![x] + s.drop_last());
        assert(t.last() == s.last());
        let head = match f(x) {
            Some(b) => seq![b],
            None => Seq::<B>::empty(),
        };
        match f(s.last()) {
            Some(b) => {
                assert(t.filter_map(f) == t.drop_last().filter_map(f) + seq![b]);
                assert(s.filter_map(f) == s.drop_last().filter_map(f) + seq![b]);
                assert(t.filter_map(f) =~= head + s.filter_map(f));
            },
            None => {
                assert(t.filter_map(f) == t.drop_last().filter_map(f));
                assert(s.filter_map(f) == s.drop_last().filter_map(f));
            },
        }
    }
}

proof fn lemma_reading_texts(rs: Seq<JsonView>)
    ensures
        reading_texts(rs) == rs.filter_map(|r: JsonView| json_str(json_get(r, "reading"@))),
    decreases rs.len(),
{
    let f = |r: JsonView| json_str(json_get(r, "reading"@));
    if rs.len() > 0 {
        lemma_reading_texts(rs.drop_first());
        assert(rs =~= seq![rs[0]] + rs.drop_first());
        lemma_filter_map_prepend(rs[0], rs.drop_first(), f);
    } else {
        assert(rs.filter_map(f) =~= Seq::<Seq<char>>::empty());
    }
}

/// The readings of a subject are the `reading` texts of all entries of its
/// `data.readings` array that have one, in order, whatever else an entry holds
/// (its `primary` flag among them); none when there is no such array.
pub proof fn lemma_subject_readings(v: JsonView)
    ensures
        subject_of(v) matches Some(s) ==> s.readings == match json_array(
            json_get(json_get(v, "data"@).unwrap(), "readings"@),
        ) {
            Some(rs) => rs.filter_map(|r: JsonView| json_str(json_get(r, "reading"@))),
            None => Seq::<Seq<char>>::empty(),
        },
{
    if let Some(data) = json_get(v, "data"@) {
        if let Some(rs) = json_array(json_get(data, "readings"@)) {
            lemma_reading_texts(rs);
        }
    }
}

proof fn lemma_primary_meaning_is_first_marked(ms: Seq<JsonView>, i: int)
    requires
        0 <= i < ms.len(),
        json_bool(json_get(ms[i], "primary"@)) == Some(true),
        json_str(json_get(ms[i], "meaning"@)) is Some,
        forall|j: int|
            0 <= j < i ==> !(json_bool(json_get(#[trigger] ms[j], "primary"@)) == Some(true)
                && json_str(json_get(ms[j], "meaning"@)) is Some),
    ensures
        primary_meaning(ms) == json_str(json_get(ms[i], "meaning"@)),
    decreases i,
{
    if i > 0 {
        let t = ms.drop_first();
        assert(!(json_bool(json_get(ms[0], "primary"@)) == Some(true) && json_str(
            json_get(ms[0], "meaning"@),
        ) is Some));
        assert forall|j: int| 0 <= j < i - 1 implies !(json_bool(json_get(#[trigger] t[j], "primary"@))
            == Some(true) && json_str(json_get(t[j], "meaning"@)) is Some) by {
            assert(t[j] == ms[j + 1]);
        }
        assert(t[i - 1] == ms[i]);
        lemma_primary_meaning_is_first_marked(t, i - 1);
    }
}

proof fn lemma_primary_meaning_found(ms: Seq<JsonView>)
    ensures
        primary_meaning(ms) matches Some(p) ==> exists|i: int|
            0 <= i < ms.len() && json_str(json_get(#[trigger] ms[i], "meaning"@)) == Some(p),
    decreases ms.len(),
{
    if ms.len() > 0 {
        lemma_primary_meaning_found(ms.drop_first());
        if let Some(p) = primary_meaning(ms) {
            if !(marked_primary(ms[0]) && meaning_text(ms[0]) is Some) {
                let i = choose|i: int|
                    0 <= i < ms.drop_first().len() && json_str(
                        json_get(#[trigger] ms.drop_first()[i], "meaning"@),
                    ) == Some(p);
                assert(ms[i + 1] == ms.drop_first()[i]);
            } else {
                assert(json_str(json_get(ms[0], "meaning"@)) == Some(p));
            }
        }
    }
}

proof fn lemma_add_new_meanings_contains(acc: Seq<Seq<char>>, ms: Seq<JsonView>, t: Seq<char>)
    ensures
        add_new_meanings(acc, ms).contains(t) <==> (acc.contains(t) || exists|i: int|
            0 <= i < ms.len() && json_str(json_get(#[trigger] ms[i], "meaning"@)) == Some(t)),
    decreases ms.len(),
{
    if ms.len() > 0 {
        let next = match meaning_text(ms[0]) {
            Some(x) => if acc.contains(x) {
                acc
            } else {
                acc.push(x)
            },
            None => acc,
        };
        let rest = ms.drop_first();
        lemma_add_new_meanings_contains(next, rest, t);
        assert(next.contains(t) <==> (acc.contains(t) || meaning_text(ms[0]) == Some(t))) by {
            if let Some(x) = meaning_text(ms[0]) {
                if !acc.contains(x) {
                    if acc.push(x).contains(t) {
                        let k = choose|k: int| 0 <= k < acc.push(x).len() && acc.push(x)[k] == t;
                        if k < acc.len() {
                            assert(acc[k] == t);
                        }
                    }
                    if acc.contains(t) {
                        let k = choose|k: int| 0 <= k < acc.len() && acc[k] == t;
                        assert(acc.push(x)[k] == t);
                    }
                    if x == t {
                        assert(acc.push(x)[acc.len() as int] == t);
                    }
                }
            }
        }
        if exists|i: int| 0 <= i < ms.len() && json_str(json_get(#[trigger] ms[i], "meaning"@)) == Some(t) {
            let i = choose|i: int| 0 <= i < ms.len() && json_str(json_get(#[trigger] ms[i], "meaning"@)) == Some(t);
            if i > 0 {
                assert(rest[i - 1] == ms[i]);
            }
        }
        if exists|i: int| 0 <= i < rest.len() && json_str(json_get(#[trigger] rest[i], "meaning"@)) == Some(t) {
            let i = choose|i: int| 0 <= i < rest.len() && json_str(json_get(#[trigger] rest[i], "meaning"@)) == Some(t);
            assert(ms[i + 1] == rest[i]);
        }
    }
}

proof fn lemma_add_new_meanings_order(
    acc: Seq<Seq<char>>,
    ms: Seq<JsonView>,
    i: int,
    j: int,
    p: int,
    q: int,
)
    requires
        acc.no_duplicates(),
        0 <= i < j < ms.len(),
        json_str(json_get(ms[i], "meaning"@)) is Some,
        json_str(json_get(ms[j], "meaning"@)) is Some,
        !acc.contains(json_str(json_get(ms[j], "meaning"@)).unwrap()),
        forall|k: int|
            0 <= k < j ==> json_str(json_get(#[trigger] ms[k], "meaning"@)) != json_str(
                json_get(ms[j], "meaning"@),
            ),
        0 <= p < add_new_meanings(acc, ms).len(),
        0 <= q < add_new_meanings(acc, ms).len(),
        add_new_meanings(acc, ms)[p] == json_str(json_get(ms[i], "meaning"@)).unwrap(),
        add_new_meanings(acc, ms)[q] == json_str(json_get(ms[j], "meaning"@)).unwrap(),
    ensures
        p < q,
    decreases i,
{
    let res = add_new_meanings(acc, ms);
    let ti = json_str(json_get(ms[i], "meaning"@)).unwrap();
    let tj = json_str(json_get(ms[j], "meaning"@)).unwrap();
    let t0 = meaning_text(ms[0]);
    let next = match t0 {
        Some(x) => if acc.contains(x) {
            acc
        } else {
            acc.push(x)
        },
        None => acc,
    };
    let rest = ms.drop_first();
    assert(res == add_new_meanings(next, rest));
    assert(next.no_duplicates()) by {
        if let Some(x) = t0 {
            if !acc.contains(x) {
                assert forall|a: int, b: int| 0 <= a < b < next.len() implies next[a] != next[b] by {
                    if b == acc.len() {
                        assert(acc.contains(acc[a]));
                    }
                }
            }
        }
    }
    lemma_add_new_meanings(next, rest);
    // tj is not in next: not in acc, and not the first entry's text
    assert(t0 != Some(tj));
    assert(!next.contains(tj)) by {
        if next.contains(tj) {
            let k = choose|k: int| 0 <= k < next.len() && next[k] == tj;
            if k < acc.len() {
                assert(acc[k] == tj);
            }
        }
    }
    // q lies past next
    assert(q >= next.len()) by {
        if q < next.len() {
            assert(res.take(next.len() as int)[q] == res[q]);
            assert(next[q] == tj);
        }
    }
    if i == 0 {
        // ti lies within next
        assert(next.contains(ti)) by {
            if acc.contains(ti) {
                let k = choose|k: int| 0 <= k < acc.len() && acc[k] == ti;
                assert(next[k] == ti);
            } else {
                assert(next[acc.len() as int] == ti);
            }
        }
        let k = choose|k: int| 0 <= k < next.len() && next[k] == ti;
        assert(res.take(next.len() as int)[k] == res[k]);
        assert(res[k] == ti);
        assert(p == k);
    } else {
        assert forall|k: int| 0 <= k < j - 1 implies json_str(json_get(#[trigger] rest[k], "meaning"@))
            != json_str(json_get(rest[j - 1], "meaning"@)) by {
            assert(rest[k] == ms[k + 1]);
        }
        assert(rest[i - 1] == ms[i]);
        assert(rest[j - 1] == ms[j]);
        lemma_add_new_meanings_order(next, rest, i - 1, j - 1, p, q);
    }
}

/// After the primary meaning, the meanings come in the order in which their
/// texts first occur among the entries: of two entries with different texts,
/// the text that first occurs later never stands before the other.
pub proof fn lemma_meanings_in_order(data: JsonView, ms: Seq<JsonView>, i: int, j: int, p: int, q: int)
    requires
        json_array(json_get(data, "meanings"@)) == Some(ms),
        0 <= i < j < ms.len(),
        json_str(json_get(ms[i], "meaning"@)) is Some,
        json_str(json_get(ms[j], "meaning"@)) is Some,
        forall|k: int|
            0 <= k < j ==> json_str(json_get(#[trigger] ms[k], "meaning"@)) != json_str(
                json_get(ms[j], "meaning"@),
            ),
        0 <= p < meanings_of(data).len(),
        0 < q < meanings_of(data).len(),
        meanings_of(data)[p] == json_str(json_get(ms[i], "meaning"@)).unwrap(),
        meanings_of(data)[q] == json_str(json_get(ms[j], "meaning"@)).unwrap(),
    ensures
        p < q,
{
    let start = match primary_meaning(ms) {
        Some(x) => seq![x],
        None => Seq::<Seq<char>>::empty(),
    };
    let tj = json_str(json_get(ms[j], "meaning"@)).unwrap();
    lemma_add_new_meanings(start, ms);
    assert(meanings_of(data) == add_new_meanings(start, ms));
    if start.contains(tj) {
        assert(start[0] == tj);
        assert(meanings_of(data).take(1)[0] == meanings_of(data)[0]);
        assert(meanings_of(data)[0] == tj);
        assert(q == 0);
    }
    lemma_add_new_meanings_order(start, ms, i, j, p, q);
}

/// The meanings of a subject's data are the `meaning` texts of the entries
/// of its `data.meanings` array, each once: every entry's text is among them
/// and each of them is some entry's text. When some entry is marked
/// `primary: true` and has a text, the first such entry's text comes first.
pub proof fn lemma_subject_meanings(data: JsonView, ms: Seq<JsonView>)
    requires
        json_array(json_get(data, "meanings"@)) == Some(ms),
    ensures
        meanings_of(data).no_duplicates(),
        forall|i: int|
            0 <= i < ms.len() && json_str(json_get(#[trigger] ms[i], "meaning"@)) is Some
                ==> meanings_of(data).contains(json_str(json_get(ms[i], "meaning"@)).unwrap()),
        forall|k: int|
            0 <= k < meanings_of(data).len() ==> exists|i: int|
                0 <= i < ms.len() && json_str(json_get(#[trigger] ms[i], "meaning"@)) == Some(
                    #[trigger] meanings_of(data)[k],
                ),
        forall|i: int|
            0 <= i < ms.len() && json_bool(json_get(#[trigger] ms[i], "primary"@)) == Some(true)
                && json_str(json_get(ms[i], "meaning"@)) is Some && (forall|j: int|
                0 <= j < i ==> !(json_bool(json_get(#[trigger] ms[j], "primary"@)) == Some(true)
                    && json_str(json_get(ms[j], "meaning"@)) is Some)) ==> meanings_of(data).len()
                > 0 && meanings_of(data)[0] == json_str(json_get(ms[i], "meaning"@)).unwrap(),
{
    lemma_meanings_unique_primary_first(data);
    let start = match primary_meaning(ms) {
        Some(p) => seq![p],
        None => Seq::<Seq<char>>::empty(),
    };
    let result = meanings_of(data);
    assert(result == add_new_meanings(start, ms));
    assert forall|i: int|
        0 <= i < ms.len() && json_str(json_get(#[trigger] ms[i], "meaning"@)) is Some implies result.contains(
        json_str(json_get(ms[i], "meaning"@)).unwrap(),
    ) by {
        lemma_add_new_meanings_contains(start, ms, json_str(json_get(ms[i], "meaning"@)).unwrap());
    }
    lemma_primary_meaning_found(ms);
    assert forall|k: int| 0 <= k < result.len() implies exists|i: int|
        0 <= i < ms.len() && json_str(json_get(#[trigger] ms[i], "meaning"@)) == Some(
            #[trigger] result[k],
        ) by {
        assert(result.contains(result[k]));
        lemma_add_new_meanings_contains(start, ms, result[k]);
        if start.contains(result[k]) {
            assert(start[0] == result[k]);
        }
    }
    assert forall|i: int|
        0 <= i < ms.len() && json_bool(json_get(#[trigger] ms[i], "primary"@)) == Some(true)
            && json_str(json_get(ms[i], "meaning"@)) is Some && (forall|j: int|
            0 <= j < i ==> !(json_bool(json_get(#[trigger] ms[j], "primary"@)) == Some(true)
                && json_str(json_get(ms[j], "meaning"@)) is Some)) implies result.len() > 0
        && result[0] == json_str(json_get(ms[i], "meaning"@)).unwrap() by {
        lemma_primary_meaning_is_first_marked(ms, i);
    }
}

/// The meanings that a subject value gives hold each text once, and the
/// primary meaning, when there is one, comes first.
pub proof fn lemma_meanings_unique_primary_first(data: JsonView)
    ensures
        meanings_of(data).no_duplicates(),
        json_array(json_get(data, "meanings"@)) matches Some(ms) ==> (primary_meaning(ms) matches Some(
            p,
        ) ==> meanings_of(data).len() > 0 && meanings_of(data)[0] == p),
{
    if let Some(ms) = json_array(json_get(data, "meanings"@)) {
        let start = match primary_meaning(ms) {
            Some(p) => seq![p],
            None => Seq::empty(),
        };
        lemma_add_new_meanings(start, ms);
        if let Some(p) = primary_meaning(ms) {
            assert(add_new_meanings(start, ms).take(1)[0] == p);
        }
    }
}

// ---------------------------------------------------------------------------
// Review items
// ---------------------------------------------------------------------------

/// A subject under review, with how often it was asked and answered right.
#[derive(Debug)]
pub struct ReviewItem {
    pub subject: Subject,
    pub seen: usize,
    pub correct: usize,
}

/// A review item, as plain values.
pub struct ReviewItemView {
    pub subject: SubjectView,
    pub seen: nat,
    pub correct: nat,
}

impl View for ReviewItem {
    type V = ReviewItemView;

    open spec fn view(&self) -> ReviewItemView {
        ReviewItemView { subject: self.subject@, seen: self.seen as nat, correct: self.correct as nat }
    }
}

/// A subject not yet asked.
pub open spec fn fresh_item(s: SubjectView) -> ReviewItemView {
    ReviewItemView { subject: s, seen: 0, correct: 0 }
}

impl Clone for ReviewItem {
    /// A copy of the review item.
    fn clone(&self) -> (r: Self)
        ensures
            r@ == self@,
    {
        ReviewItem { subject: self.subject.clone(), seen: self.seen, correct: self.correct }
    }
}

impl ReviewItem {
    /// A review item for `subject`, not yet asked.
    pub fn new(subject: Subject) -> (r: Self)
        ensures
            r@ == fresh_item(subject@),
    {
        ReviewItem { subject, seen: 0, correct: 0 }
    }
}

pub open spec fn items_view(v: Seq<ReviewItem>) -> Seq<ReviewItemView> {
    v.map_values(|i: ReviewItem| i@)
}

/// The subjects that the entries of `entries` describe, in order, each
/// entry left out that describes none.
pub open spec fn subjects_of(entries: Seq<JsonView>) -> Seq<SubjectView>
    decreases entries.len(),
{
    if entries.len() == 0 {
        Seq::empty()
    } else {
        let first = match subject_of(entries[0]) {
            Some(s) => seq![s],
            None => Seq::empty(),
        };
        first + subjects_of(entries.drop_first())
    }
}

/// The review items for a subjects response: one fresh item per subject
/// that the `data` array describes, or `None` when there is no `data` array.
pub open spec fn review_items_of(response: JsonView) -> Option<Seq<ReviewItemView>> {
    match json_array(json_get(response, "data"@)) {
        Some(entries) => Some(subjects_of(entries).map_values(|s: SubjectView| fresh_item(s))),
        None => None,
    }
}

/// A subject value gives a subject exactly when it has an unsigned integer
/// `id` and a `data` member; the subject has that id, and the string under
/// `data.characters` as its characters (none when there is no such string).
pub proof fn lemma_subject_fields(v: JsonView)
    ensures
        subject_of(v) is Some <==> (json_u64(json_get(v, "id"@)) is Some && json_get(v, "data"@) is Some),
        subject_of(v) matches Some(s) ==> s.id == json_u64(json_get(v, "id"@)).unwrap()
            && s.characters == match json_str(json_get(json_get(v, "data"@).unwrap(), "characters"@)) {
            Some(c) => c,
            None => Seq::<char>::empty(),
        },
{
}

proof fn lemma_subjects_of(entries: Seq<JsonView>)
    ensures
        subjects_of(entries) == entries.filter_map(|e: JsonView| subject_of(e)),
    decreases entries.len(),
{
    let f = |e: JsonView| subject_of(e);
    if entries.len() > 0 {
        lemma_subjects_of(entries.drop_first());
        assert(entries =~= seq![entries[0]] + entries.drop_first());
        lemma_filter_map_prepend(entries[0], entries.drop_first(), f);
    } else {
        assert(entries.filter_map(f) =~= Seq::<SubjectView>::empty());
    }
}

/// A subjects response gives review items exactly when it has a `data`
/// array: one per entry that is a subject value, in order, each for that
/// subject and not yet seen nor answered right.
pub proof fn lemma_review_items(response: JsonView)
    ensures
        review_items_of(response) is Some <==> json_array(json_get(response, "data"@)) is Some,
        review_items_of(response) matches Some(items) ==> {
            let subjects = json_array(json_get(response, "data"@)).unwrap().filter_map(
                |e: JsonView| subject_of(e),
            );
            &&& items.len() == subjects.len()
            &&& forall|i: int|
                0 <= i < items.len() ==> (#[trigger] items[i]).subject == subjects[i]
                    && items[i].seen == 0 && items[i].correct == 0
        },
{
    if let Some(entries) = json_array(json_get(response, "data"@)) {
        lemma_subjects_of(entries);
    }
}

/// The review items for a subjects response (`{ data: [subject, ..] }`):
/// `None` when it has no `data` array.
pub fn review_items_from_response(response: &Json) -> (r: Option<Vec<ReviewItem>>)
    ensures
        match r {
            Some(items) => review_items_of(response@) == Some(items_view(items@)),
            None => review_items_of(response@) is None,
        },
{
    let data_key = String::from_str("data");
    let entries = match get_array(response, &data_key) {
        Some(a) => a,
        None => {
            return None;
        },
    };
    let ghost fresh = |s: SubjectView| fresh_item(s);
    let ghost ev = views(entries@);
    let mut items: Vec<ReviewItem> = Vec::new();
    let mut i: usize = 0;
    assert(ev.skip(0) =~= ev);
    assert(items_view(items@) =~= Seq::<ReviewItemView>::empty());
    while i < entries.len()
        invariant
            i <= entries@.len(),
            ev == views(entries@),
            subjects_of(ev).map_values(fresh) == items_view(items@) + subjects_of(
                ev.skip(i as int),
            ).map_values(fresh),
            fresh == (|s: SubjectView| fresh_item(s)),
        decreases entries@.len() - i,
    {
        let ghost rest = ev.skip(i as int);
        assert(rest.drop_first() =~= ev.skip(i + 1));
        assert(rest[0] == entries@[i as int]@);
        let ghost before = items@;
        match Subject::from_wanikani_value(&entries[i]) {
            Some(s) => {
                items.push(ReviewItem::new(s));
                assert(subjects_of(rest) == seq![subject_of(rest[0]).unwrap()] + subjects_of(
                    rest.drop_first(),
                ));
                assert(subjects_of(rest).map_values(fresh) =~= seq![
                    fresh_item(subject_of(rest[0]).unwrap()),
                ] + subjects_of(rest.drop_first()).map_values(fresh));
                assert(items_view(items@) =~= items_view(before) + seq![
                    fresh_item(subject_of(rest[0]).unwrap()),
                ]);
            },
            None => {
                assert(subjects_of(rest) =~= subjects_of(rest.drop_first()));
            },
        }
        i = i + 1;
    }
    assert(ev.skip(ev.len() as int) =~= Seq::<JsonView>::empty());
    assert(items_view(items@) + Seq::<SubjectView>::empty().map_values(fresh) =~= items_view(
        items@,
    ));
    Some(items)
}

} // verus!
