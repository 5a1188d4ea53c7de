//! The scripts of a project.

use crate::text::{chars_of, contains_text};
use vstd::prelude::*;

verus! {

/// The name of a file is that of a Python script: its extension, which stands
/// behind the last dot but not at the front of the name, is `py`.
pub open spec fn names_script(name: Seq<char>) -> bool {
    name.len() > 3 && name.skip(name.len() - 3) == seq!['.', 'p', 'y']
}

pub fn is_script_name(name: &str) -> (script: bool)
    ensures
        script == names_script(name@),
{
    let chars = chars_of(name);
    let n: usize = chars.len();
    if n <= 3 {
        return false;
    }
    let script = chars[n - 3] == '.' && chars[n - 2] == 'p' && chars[n - 1] == 'y';
    proof {
        let ending = name@.skip(n - 3);
        if script {
            assert(ending =~= seq!['.', 'p', 'y']);
        } else {
            assert(ending[0] == chars@[n - 3] && ending[1] == chars@[n - 2] && ending[2]
                == chars@[n - 1]);
        }
    }
    script
}

/// `a` stands before `b` in the order of their characters, or says the same.
pub open spec fn not_behind(a: Seq<char>, b: Seq<char>) -> bool
    decreases a.len(),
{
    if a.len() == 0 {
        true
    } else if b.len() == 0 {
        false
    } else {
        a[0] < b[0] || a[0] == b[0] && not_behind(a.drop_first(), b.drop_first())
    }
}

/// The names stand in order.
pub open spec fn in_order(names: Seq<Seq<char>>) -> bool {
    forall|i: int, j: int|
        0 <= i < j < names.len() ==> not_behind(#[trigger] names[i], #[trigger] names[j])
}

/// Calls `sort` of a slice of strings, which puts them in the order of strings. That
/// is the lexicographic order of their bytes and, as std's documentation says, of
/// the positions of their characters in the code charts.
#[verifier::external_body]
fn sort_names(names: &mut Vec<String>)
    ensures
        in_order(crate::text::texts_of(final(names)@)),
        crate::text::texts_of(final(names)@).to_multiset() == crate::text::texts_of(
            old(names)@,
        ).to_multiset(),
{
    names.sort();
}

/// Those of the names that are names of scripts.
pub open spec fn scripts_among(names: Seq<Seq<char>>) -> Seq<Seq<char>> {
    names.filter(|name: Seq<char>| names_script(name))
}

/// The scripts among the files of a directory, in order.
pub fn available_scripts(names: &Vec<String>) -> (scripts: Vec<String>)
    ensures
        in_order(crate::text::texts_of(scripts@)),
        crate::text::texts_of(scripts@).to_multiset() == scripts_among(
            crate::text::texts_of(names@),
        ).to_multiset(),
{
    let mut scripts: Vec<String> = Vec::new();
    let mut i: usize = 0;
    let ghost all = crate::text::texts_of(names@);
    assert(crate::text::texts_of(scripts@) =~= scripts_among(all.take(0))) by {
        reveal(Seq::filter);
    }
    while i < names.len()
        invariant
            i <= names@.len(),
            all == crate::text::texts_of(names@),
            crate::text::texts_of(scripts@) == scripts_among(all.take(i as int)),
        decreases names@.len() - i,
    {
        proof {
            reveal(Seq::filter);
            assert(all.take(i + 1).drop_last() =~= all.take(i as int));
        }
        let ghost before = scripts@;
        if is_script_name(names[i].as_str()) {
            let name = names[i].clone();
            scripts.push(name);
            assert(crate::text::texts_of(scripts@) =~= crate::text::texts_of(before).push(name@));
        }
        i = i + 1;
    }
    assert(all.take(i as int) =~= all);
    sort_names(&mut scripts);
    scripts
}

/// The script that the editor opens first.
pub open spec fn first_script(names: Seq<Seq<char>>) -> Seq<char> {
    if names.contains("main.py"@) || names.len() == 0 {
        "main.py"@
    } else {
        names[0]
    }
}

pub fn initial_script(names: &Vec<String>) -> (script: String)
    ensures
        script@ == first_script(crate::text::texts_of(names@)),
{
    let main = "main.py".to_owned();
    if !contains_text(names, &main) && names.len() > 0 {
        names[0].clone()
    } else {
        main
    }
}

/// Nothing but the names of scripts is among the scripts, and none of them is
/// missing.
pub proof fn scripts_are_the_names_of_scripts(
    names: Seq<Seq<char>>,
    scripts: Seq<Seq<char>>,
    name: Seq<char>,
)
    requires
        scripts.to_multiset() == scripts_among(names).to_multiset(),
    ensures
        scripts.contains(name) <==> names.contains(name) && names_script(name),
{
    broadcast use vstd::seq_lib::group_to_multiset_ensures;

    let among = scripts_among(names);
    assert(scripts.contains(name) <==> scripts.to_multiset().count(name) > 0);
    assert(among.contains(name) <==> among.to_multiset().count(name) > 0);
    if among.contains(name) {
        let i = choose|i: int| 0 <= i < among.len() && among[i] == name;
        kept_names_are_names(names, i);
    }
    if names.contains(name) && names_script(name) {
        let i = choose|i: int| 0 <= i < names.len() && names[i] == name;
        script_names_are_kept(names, i);
    }
}

proof fn kept_names_are_names(names: Seq<Seq<char>>, i: int)
    requires
        0 <= i < scripts_among(names).len(),
    ensures
        names.contains(scripts_among(names)[i]),
        names_script(scripts_among(names)[i]),
    decreases names.len(),
{
    reveal(Seq::filter);
    let rest = names.drop_last();
    if i < scripts_among(rest).len() {
        kept_names_are_names(rest, i);
        let name = scripts_among(names)[i];
        let j = choose|j: int| 0 <= j < rest.len() && rest[j] == name;
        assert(names[j] == name);
    } else {
        assert(names[names.len() - 1] == scripts_among(names)[i]);
    }
}

proof fn script_names_are_kept(names: Seq<Seq<char>>, i: int)
    requires
        0 <= i < names.len(),
        names_script(names[i]),
    ensures
        scripts_among(names).contains(names[i]),
    decreases names.len(),
{
    reveal(Seq::filter);
    let rest = names.drop_last();
    let kept = scripts_among(names);
    if i < rest.len() {
        script_names_are_kept(rest, i);
        let j = choose|j: int|
            0 <= j < scripts_among(rest).len() && scripts_among(rest)[j] == names[i];
        assert(kept[j] == names[i]);
    } else {
        assert(kept[scripts_among(rest).len() as int] == names[i]);
    }
}

/// A script is named by something in front of `.py`.
pub proof fn scripts_have_a_stem(name: Seq<char>)
    ensures
        names_script(name) <==> exists|stem: Seq<char>|
            stem.len() > 0 && name == #[trigger] (stem + ".py"@),
{
    reveal_strlit(".py");
    assert(".py"@ =~= seq!['.', 'p', 'y']);
    if names_script(name) {
        let stem = name.take(name.len() - 3);
        assert(name =~= stem + ".py"@);
    }
    if exists|stem: Seq<char>| stem.len() > 0 && name == #[trigger] (stem + ".py"@) {
        let stem = choose|stem: Seq<char>| stem.len() > 0 && name == #[trigger] (stem + ".py"@);
        assert(name.skip(name.len() - 3) =~= ".py"@);
    }
}

/// Of two names that differ, one comes before the other: the one with the smaller
/// character at the first place where they differ, or the one that ends there.
pub proof fn first_difference_decides(a: Seq<char>, b: Seq<char>, i: int)
    requires
        0 <= i <= a.len(),
        i <= b.len(),
        a.take(i) == b.take(i),
        i < a.len() && i < b.len() ==> a[i] != b[i],
    ensures
        not_behind(a, b) <==> i == a.len() || i < b.len() && a[i] < b[i],
    decreases i,
{
    if i > 0 {
        assert(a.take(i)[0] == a[0] && b.take(i)[0] == b[0]);
        assert(a.drop_first().take(i - 1) =~= a.take(i).drop_first());
        assert(b.drop_first().take(i - 1) =~= b.take(i).drop_first());
        if i < a.len() && i < b.len() {
            assert(a.drop_first()[i - 1] == a[i] && b.drop_first()[i - 1] == b[i]);
        }
        first_difference_decides(a.drop_first(), b.drop_first(), i - 1);
    }
}

/// The editor opens `main.py` where it is there or nothing else is, and else the first
/// script.
pub proof fn main_script_comes_first(names: Seq<Seq<char>>, i: int)
    ensures
        names.len() == 0 ==> first_script(names) == "main.py"@,
        0 <= i < names.len() && names[i] == "main.py"@ ==> first_script(names) == "main.py"@,
        names.len() > 0 ==> names.contains(first_script(names)),
        names.len() > 0 && first_script(names) != "main.py"@ ==> first_script(names) == names[0],
{
    if names.len() > 0 {
        assert(names.contains(names[0]));
    }
}

} // verus!
