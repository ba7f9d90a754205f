//! Who has contributed: the students to report after a counting pass.

use vstd::prelude::*;

use crate::database::{lists_records, Student, StudentDirectory, StudentView};

verus! {

/// The student has at least one counted pull request, open or merged.
pub open spec fn has_contributed(student: StudentView) -> bool {
    student.open_pr_count + student.merged_pr_count >= 1
}

/// Whether the student has at least one counted pull request.
pub fn contributed(student: &Student) -> (yes: bool)
    ensures
        yes == has_contributed(student@),
{
    student.open_pr_count >= 1 || student.merged_pr_count >= 1
}

/// The usernames of the students who have contributed, each once, in the
/// order of the directory.
pub fn passed_students(kwoc_students: &StudentDirectory) -> (names: Vec<String>)
    requires
        kwoc_students.wf(),
    ensures
        names.deep_view().no_duplicates(),
        forall|name: Seq<char>|
            names.deep_view().contains(name) <==> kwoc_students@.contains_key(name) && has_contributed(
                kwoc_students@[name],
            ),
{
    let list = kwoc_students.students();
    let mut names: Vec<String> = Vec::new();
    let ghost mut picked: Seq<int> = Seq::empty();
    let mut i: usize = 0;
    while i < list.len()
        invariant
            i <= list.len(),
            lists_records(list@, kwoc_students.records()),
            picked.len() == names.len(),
            forall|j: int| 0 <= j < picked.len() ==> 0 <= #[trigger] picked[j] < i,
            forall|j: int, k: int| 0 <= j < k < picked.len() ==> picked[j] < picked[k],
            forall|j: int|
                0 <= j < picked.len() ==> (#[trigger] names[j])@ == list[picked[j]].username@
                    && has_contributed(list[picked[j]]@),
            forall|k: int|
                0 <= k < i && has_contributed((#[trigger] list[k])@) ==> exists|j: int|
                    0 <= j < picked.len() && #[trigger] picked[j] == k,
        decreases list.len() - i,
    {
        if contributed(&list[i]) {
            names.push(list[i].username.clone());
            proof {
                let ghost before = picked;
                picked = picked.push(i as int);
                assert forall|k: int| 0 <= k < i + 1 && has_contributed((#[trigger] list[k])@) implies exists|
                    j: int,
                | 0 <= j < picked.len() && #[trigger] picked[j] == k by {
                    if k < i {
                        let j = choose|j: int| 0 <= j < before.len() && #[trigger] before[j] == k;
                        assert(picked[j] == k);
                    } else {
                        assert(picked[before.len() as int] == k);
                    }
                }
            }
        }
        i += 1;
    }
    proof {
        let texts = names.deep_view();
        assert(texts.len() == names.len());
        assert forall|j: int| 0 <= j < texts.len() implies #[trigger] texts[j] == names[j]@ by {}
        assert forall|j: int, k: int| 0 <= j < texts.len() && 0 <= k < texts.len() && j != k implies texts[j]
            != texts[k] by {
            assert(names[j]@ == list[picked[j]].username@);
            assert(names[k]@ == list[picked[k]].username@);
            if j < k {
                assert(picked[j] < picked[k]);
            } else {
                assert(picked[k] < picked[j]);
            }
        }
        assert forall|name: Seq<char>| texts.contains(name) implies kwoc_students@.contains_key(name)
            && has_contributed(kwoc_students@[name]) by {
            let j = choose|j: int| 0 <= j < texts.len() && texts[j] == name;
            assert(names[j]@ == list[picked[j]].username@);
            assert(kwoc_students.records()[list[picked[j]].username@] == list[picked[j]]);
        }
        assert forall|name: Seq<char>|
            kwoc_students@.contains_key(name) && has_contributed(kwoc_students@[name]) implies texts.contains(
            name,
        ) by {
            assert(kwoc_students.records().contains_key(name));
            let k = choose|k: int| 0 <= k < list.len() && (#[trigger] list[k]).username@ == name;
            assert(kwoc_students.records()[list[k].username@] == list[k]);
            let j = choose|j: int| 0 <= j < picked.len() && #[trigger] picked[j] == k;
            assert(texts[j] == name);
        }
    }
    names
}

} // verus!
