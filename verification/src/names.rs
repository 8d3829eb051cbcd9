//! The names that occur among the notes of a performance, each once and in
//! the order of a dictionary.

use vstd::prelude::*;
use crate::comparison::NoteSequence;

verus! {

/// Whether `a` comes before `b` in the order of a dictionary, character by
/// character by their code points; a string comes after each of its proper
/// beginnings.
pub open spec fn comes_before(a: Seq<char>, b: Seq<char>) -> bool
    decreases a.len(),
{
    if b.len() == 0 {
        false
    } else if a.len() == 0 {
        true
    } else if (a[0] as int) < (b[0] as int) {
        true
    } else if a[0] == b[0] {
        comes_before(a.skip(1), b.skip(1))
    } else {
        false
    }
}

/// Which of two strings comes first.
#[derive(Debug, Clone, Copy, PartialEq, Eq)]
pub enum Precedence {
    Before,
    Same,
    After,
}

/// Of two strings, one comes before the other or they are the same, and
/// only one of the three.
pub proof fn lemma_one_comes_first(a: Seq<char>, b: Seq<char>)
    ensures
        comes_before(a, b) || a == b || comes_before(b, a),
        !(comes_before(a, b) && a == b),
        !(comes_before(a, b) && comes_before(b, a)),
    decreases a.len(),
{
    if a.len() > 0 && b.len() > 0 {
        lemma_one_comes_first(a.skip(1), b.skip(1));
        if a[0] == b[0] {
            if a.skip(1) == b.skip(1) {
                assert(a =~= seq![a[0]] + a.skip(1));
                assert(b =~= seq![b[0]] + b.skip(1));
            }
        }
    } else if a.len() == 0 && b.len() == 0 {
        assert(a =~= b);
    }
}

/// What comes before a string comes before all that the string comes
/// before.
pub proof fn lemma_comes_before_transitive(a: Seq<char>, b: Seq<char>, c: Seq<char>)
    requires
        comes_before(a, b),
        comes_before(b, c),
    ensures
        comes_before(a, c),
    decreases a.len(),
{
    if a.len() > 0 && b.len() > 0 && c.len() > 0 {
        if a[0] == b[0] && b[0] == c[0] {
            lemma_comes_before_transitive(a.skip(1), b.skip(1), c.skip(1));
        }
    }
}

/// Two strings that begin alike are in the order of what follows the
/// common beginning.
proof fn lemma_after_common_beginning(a: Seq<char>, b: Seq<char>, i: int)
    requires
        0 <= i <= a.len(),
        i <= b.len(),
        a.take(i) == b.take(i),
    ensures
        comes_before(a, b) == comes_before(a.skip(i), b.skip(i)),
        comes_before(b, a) == comes_before(b.skip(i), a.skip(i)),
        (a == b) == (a.skip(i) == b.skip(i)),
    decreases i,
{
    if i == 0 {
        assert(a.skip(0) =~= a);
        assert(b.skip(0) =~= b);
    } else {
        assert(a.take(i)[0] == a[0]);
        assert(b.take(i)[0] == b[0]);
        assert(a[0] == b[0]);
        assert(a.skip(1).take(i - 1) =~= a.take(i).skip(1));
        assert(b.skip(1).take(i - 1) =~= b.take(i).skip(1));
        assert(a.skip(1).take(i - 1) == b.skip(1).take(i - 1));
        lemma_after_common_beginning(a.skip(1), b.skip(1), i - 1);
        assert(a.skip(1).skip(i - 1) =~= a.skip(i));
        assert(b.skip(1).skip(i - 1) =~= b.skip(i));
        assert(comes_before(a, b) == comes_before(a.skip(1), b.skip(1)));
        assert(comes_before(b, a) == comes_before(b.skip(1), a.skip(1)));
        if a.skip(1) == b.skip(1) {
            assert(a =~= seq![a[0]] + a.skip(1));
            assert(b =~= seq![b[0]] + b.skip(1));
        }
    }
}

/// Tells which of two strings comes first in the order of a dictionary.
pub fn precedence(a: &str, b: &str) -> (r: Precedence)
    ensures
        r is Before <==> comes_before(a@, b@),
        r is Same <==> a@ == b@,
        r is After <==> comes_before(b@, a@),
{
    proof {
        lemma_one_comes_first(a@, b@);
    }
    let length_a: usize = a.unicode_len();
    let length_b: usize = b.unicode_len();
    let mut i: usize = 0;
    while i < length_a && i < length_b
        invariant
            length_a == a@.len(),
            length_b == b@.len(),
            0 <= i <= length_a,
            i <= length_b,
            a@.take(i as int) == b@.take(i as int),
        decreases length_a - i,
    {
        let in_a: char = a.get_char(i);
        let in_b: char = b.get_char(i);
        if in_a != in_b {
            proof {
                lemma_after_common_beginning(a@, b@, i as int);
                assert(a@.skip(i as int)[0] == in_a);
                assert(b@.skip(i as int)[0] == in_b);
            }
            if (in_a as u32) < (in_b as u32) {
                return Precedence::Before;
            } else {
                return Precedence::After;
            }
        }
        proof {
            assert(a@.take(i + 1) =~= a@.take(i as int).push(in_a));
            assert(b@.take(i + 1) =~= b@.take(i as int).push(in_b));
        }
        i = i + 1;
    }
    proof {
        lemma_after_common_beginning(a@, b@, i as int);
        if length_a == length_b {
            assert(a@.skip(i as int) =~= b@.skip(i as int));
        }
    }
    if length_a == length_b {
        Precedence::Same
    } else if length_a < length_b {
        Precedence::Before
    } else {
        Precedence::After
    }
}

/// Strings of which each comes before the next: in the order of a
/// dictionary, and none twice.
pub open spec fn in_dictionary_order(names: Seq<String>) -> bool {
    forall|i: int, j: int|
        0 <= i < j < names.len() ==> comes_before((#[trigger] names[i])@, (#[trigger] names[j])@)
}

/// Whether `name` is the name of one of the first `n` notes.
pub open spec fn is_named_among(notes: Seq<NoteSequence>, n: int, name: Seq<char>) -> bool {
    exists|k: int| 0 <= k < n && (#[trigger] notes[k]).note_name@ == name
}

/// Whether `name` is one of the strings.
pub open spec fn is_listed(names: Seq<String>, name: Seq<char>) -> bool {
    exists|i: int| 0 <= i < names.len() && (#[trigger] names[i])@ == name
}

/// Whether `names` are the names of the first `n` notes, each once and in
/// the order of a dictionary.
pub open spec fn are_names_of(names: Seq<String>, notes: Seq<NoteSequence>, n: int) -> bool {
    &&& in_dictionary_order(names)
    &&& forall|i: int| 0 <= i < names.len() ==> is_named_among(notes, n, (#[trigger] names[i])@)
    &&& forall|k: int| 0 <= k < n ==> is_listed(names, (#[trigger] notes[k]).note_name@)
}

/// Puts `name` in its place among `names`, unless it is there.
fn include_name(names: &mut Vec<String>, name: &String)
    requires
        in_dictionary_order(old(names)@),
    ensures
        in_dictionary_order(final(names)@),
        is_listed(final(names)@, name@),
        forall|i: int|
            0 <= i < old(names)@.len() ==> is_listed(final(names)@, (#[trigger] old(names)@[i])@),
        forall|i: int|
            0 <= i < final(names)@.len() ==> (#[trigger] final(names)@[i])@ == name@ || is_listed(
                old(names)@,
                final(names)@[i]@,
            ),
{
    let mut place: usize = 0;
    let mut placed: bool = false;
    while place < names.len() && !placed
        invariant
            0 <= place <= names.len(),
            names@ == old(names)@,
            in_dictionary_order(names@),
            forall|i: int| 0 <= i < place ==> comes_before((#[trigger] names@[i])@, name@),
            placed ==> place < names.len() && comes_before(name@, names@[place as int]@),
        decreases names.len() - place + (if placed { 0int } else { 1int }),
    {
        match precedence(names[place].as_str(), name.as_str()) {
            Precedence::Before => {
                place = place + 1;
            },
            Precedence::Same => {
                assert(names@[place as int]@ == name@);
                assert forall|i: int| 0 <= i < names@.len() implies is_listed(
                    names@,
                    (#[trigger] names@[i])@,
                ) by {}
                return ;
            },
            Precedence::After => {
                placed = true;
            },
        }
    }
    let ghost before = names@;
    let entry = name.clone();
    names.insert(place, entry);
    proof {
        let after = names@;
        assert(after[place as int]@ == name@);
        assert forall|i: int, j: int| 0 <= i < j < after.len() implies comes_before(
            (#[trigger] after[i])@,
            (#[trigger] after[j])@,
        ) by {
            if j < place {
                assert(after[i] == before[i] && after[j] == before[j]);
            } else if j == place {
                assert(after[i] == before[i]);
            } else if i == place {
                assert(after[j] == before[j - 1]);
                if j - 1 > place {
                    assert(comes_before(before[place as int]@, before[j - 1]@));
                    lemma_comes_before_transitive(name@, before[place as int]@, before[j - 1]@);
                }
            } else if i < place {
                assert(after[i] == before[i] && after[j] == before[j - 1]);
            } else {
                assert(after[i] == before[i - 1] && after[j] == before[j - 1]);
            }
        }
        assert forall|i: int| 0 <= i < before.len() implies is_listed(
            after,
            (#[trigger] before[i])@,
        ) by {
            if i < place {
                assert(after[i] == before[i]);
            } else {
                assert(after[i + 1] == before[i]);
            }
        }
        assert forall|i: int| 0 <= i < after.len() implies (#[trigger] after[i])@ == name@
            || is_listed(before, after[i]@) by {
            if i < place {
                assert(after[i] == before[i]);
            } else if i > place {
                assert(after[i] == before[i - 1]);
            }
        }
    }
}

/// The names that occur among the notes, each once and in the order of a
/// dictionary.
pub fn unique_note_names(notes: &Vec<NoteSequence>) -> (names: Vec<String>)
    ensures
        are_names_of(names@, notes@, notes@.len() as int),
{
    let mut names: Vec<String> = Vec::new();
    let mut n: usize = 0;
    while n < notes.len()
        invariant
            0 <= n <= notes.len(),
            are_names_of(names@, notes@, n as int),
        decreases notes.len() - n,
    {
        let ghost before = names@;
        include_name(&mut names, &notes[n].note_name);
        proof {
            assert forall|i: int| 0 <= i < names@.len() implies is_named_among(
                notes@,
                n + 1,
                (#[trigger] names@[i])@,
            ) by {
                if names@[i]@ == notes@[n as int].note_name@ {
                } else {
                    let j = choose|j: int| 0 <= j < before.len() && (#[trigger] before[j])@
                        == names@[i]@;
                    assert(is_named_among(notes@, n as int, before[j]@));
                    let k = choose|k: int|
                        0 <= k < n && (#[trigger] notes@[k]).note_name@ == before[j]@;
                    assert(notes@[k].note_name@ == names@[i]@);
                }
            }
            assert forall|k: int| 0 <= k < n + 1 implies is_listed(
                names@,
                (#[trigger] notes@[k]).note_name@,
            ) by {
                if k < n {
                    assert(is_listed(before, notes@[k].note_name@));
                    let j = choose|j: int| 0 <= j < before.len() && (#[trigger] before[j])@
                        == notes@[k].note_name@;
                    assert(is_listed(names@, before[j]@));
                }
            }
        }
        n = n + 1;
    }
    names
}

/// Two lists of the names of the same notes, each in the order of a
/// dictionary, are the same list.
pub proof fn lemma_names_are_unique(
    first: Seq<String>,
    second: Seq<String>,
    notes: Seq<NoteSequence>,
    n: int,
)
    requires
        are_names_of(first, notes, n),
        are_names_of(second, notes, n),
    ensures
        first.len() == second.len(),
        forall|i: int| 0 <= i < first.len() ==> (#[trigger] first[i])@ == second[i]@,
{
    assert forall|i: int| 0 <= i < first.len() implies (#[trigger] first[i])@ == second[i]@ && i
        < second.len() by {
        lemma_same_place(first, second, notes, n, i);
    }
    if first.len() > 0 {
        lemma_same_place(first, second, notes, n, first.len() - 1);
    }
    if second.len() > 0 {
        lemma_same_place(second, first, notes, n, second.len() - 1);
    }
}

/// Two lists of the names of the same notes, each in the order of a
/// dictionary, agree at every place of the first.
proof fn lemma_same_place(
    first: Seq<String>,
    second: Seq<String>,
    notes: Seq<NoteSequence>,
    n: int,
    i: int,
)
    requires
        are_names_of(first, notes, n),
        are_names_of(second, notes, n),
        0 <= i < first.len(),
    ensures
        i < second.len(),
        first[i]@ == second[i]@,
    decreases i,
{
    // every earlier place agrees
    if i > 0 {
        lemma_same_place(first, second, notes, n, i - 1);
    }
    // first[i] occurs in second, at some place p
    assert(is_named_among(notes, n, first[i]@));
    let k = choose|k: int| 0 <= k < n && (#[trigger] notes[k]).note_name@ == first[i]@;
    assert(is_listed(second, notes[k].note_name@));
    let p = choose|p: int| 0 <= p < second.len() && (#[trigger] second[p])@ == first[i]@;
    if p < i {
        // second[p] == first[p] by the earlier places, which comes before first[i]
        lemma_same_place(first, second, notes, n, p);
        assert(comes_before(first[p]@, first[i]@));
        lemma_one_comes_first(first[p]@, first[i]@);
    } else if p > i {
        // second[i] comes before second[p] == first[i]; it occurs in first at a place q
        assert(comes_before(second[i]@, second[p]@));
        assert(is_named_among(notes, n, second[i]@));
        let k2 = choose|k2: int| 0 <= k2 < n && (#[trigger] notes[k2]).note_name@ == second[i]@;
        assert(is_listed(first, notes[k2].note_name@));
        let q = choose|q: int| 0 <= q < first.len() && (#[trigger] first[q])@ == second[i]@;
        lemma_one_comes_first(second[i]@, first[i]@);
        if q < i {
            lemma_same_place(first, second, notes, n, q);
            // second[q] == first[q] == second[i] with q < i: against the order of second
            assert(comes_before(second[q]@, second[i]@));
            lemma_one_comes_first(second[q]@, second[i]@);
        } else if q > i {
            assert(comes_before(first[i]@, first[q]@));
            lemma_one_comes_first(first[i]@, first[q]@);
        }
    }
}

} // verus!
