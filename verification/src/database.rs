//! Students and projects as the programme's records hold them, and the
//! directory of students that a counting pass works on.

use vstd::prelude::*;

verus! {

/// One registered student.
#[derive(Debug)]
pub struct Student {
    pub id: u32,
    pub name: Option<String>,
    pub email: Option<String>,
    pub college: Option<String>,
    /// The forge login; the key under which the directory holds the student.
    pub username: String,
    /// `Some("true")` once the student has passed the mid evaluation.
    pub passed_mid_evals: Option<String>,
    pub passed_end_evals: Option<String>,
    pub blog_link: Option<String>,
    pub commit_count: Option<u32>,
    pub pull_count: Option<u32>,
    pub lines_added: Option<u32>,
    pub lines_removed: Option<u32>,
    /// Counted pull requests that are still open.
    pub open_pr_count: u32,
    /// Counted pull requests that were merged.
    pub merged_pr_count: u32,
    pub languages_used: Option<String>,
    pub projects_worked: Option<String>,
    pub pulls: Option<String>,
}

/// What counting reads and writes of a student.
pub struct StudentView {
    pub passed_mid_evals: Option<Seq<char>>,
    pub open_pr_count: nat,
    pub merged_pr_count: nat,
}

impl View for Student {
    type V = StudentView;

    open spec fn view(&self) -> StudentView {
        StudentView {
            passed_mid_evals: match self.passed_mid_evals {
                Some(flag) => Some(flag@),
                None => None,
            },
            open_pr_count: self.open_pr_count as nat,
            merged_pr_count: self.merged_pr_count as nat,
        }
    }
}

impl Student {
    /// `self` is `before` with, at most, other counters.
    pub open spec fn same_profile(self, before: Student) -> bool {
        self == (Student {
            open_pr_count: self.open_pr_count,
            merged_pr_count: self.merged_pr_count,
            ..before
        })
    }

    /// `self` with both counters at zero.
    pub open spec fn zeroed(self) -> Student {
        Student { open_pr_count: 0, merged_pr_count: 0, ..self }
    }
}

/// One project of the programme.
#[derive(Debug)]
pub struct Project {
    pub id: u32,
    pub name: Option<String>,
    pub description: Option<String>,
    pub tags: Option<String>,
    /// Where the repository lives: `https://github.com/<owner>/<repo>`.
    pub repo_link: Option<String>,
    pub comm_channel: Option<String>,
    pub readme_link: Option<String>,
    pub project_status: Option<String>,
    pub last_pull_time: Option<u32>,
    pub commit_count: Option<u32>,
    pub pull_count: Option<u32>,
    pub lines_added: Option<u32>,
    pub lines_removed: Option<u32>,
    pub contributers: Option<String>,
    pub pulls: Option<String>,
    pub mentor_id: Option<u32>,
    pub secondary_mentor_id: Option<u32>,
}

/// The directory that loading `rows` in order gives: each student under
/// the student's username with both counters at zero, a later row in place
/// of an earlier one of the same username.
pub open spec fn loaded(rows: Seq<Student>) -> Map<Seq<char>, Student>
    decreases rows.len(),
{
    if rows.len() == 0 {
        Map::empty()
    } else {
        loaded(rows.drop_last()).insert(rows.last().username@, rows.last().zeroed())
    }
}

/// The students with one more open pull request counted for the student
/// called `name`, if there is such a student.
pub open spec fn plus_open(students: Map<Seq<char>, StudentView>, name: Seq<char>) -> Map<
    Seq<char>,
    StudentView,
> {
    if students.contains_key(name) {
        students.insert(
            name,
            StudentView { open_pr_count: students[name].open_pr_count + 1, ..students[name] },
        )
    } else {
        students
    }
}

/// The students with one more merged pull request counted for the student
/// called `name`, if there is such a student.
pub open spec fn plus_merged(students: Map<Seq<char>, StudentView>, name: Seq<char>) -> Map<
    Seq<char>,
    StudentView,
> {
    if students.contains_key(name) {
        students.insert(
            name,
            StudentView { merged_pr_count: students[name].merged_pr_count + 1, ..students[name] },
        )
    } else {
        students
    }
}

/// The students of the programme, each under a username of its own.
pub struct StudentDirectory {
    students: Vec<Student>,
}

impl View for StudentDirectory {
    type V = Map<Seq<char>, StudentView>;

    /// What counting reads and writes of each student, by username.
    open spec fn view(&self) -> Map<Seq<char>, StudentView> {
        self.records().map_values(|student: Student| student@)
    }
}

/// `list` holds the students of `records`, each once.
pub open spec fn lists_records(list: Seq<Student>, records: Map<Seq<char>, Student>) -> bool {
    &&& forall|i: int, j: int|
        0 <= i < j < list.len() ==> (#[trigger] list[i]).username@ != (#[trigger] list[j]).username@
    &&& forall|i: int|
        0 <= i < list.len() ==> records.contains_key((#[trigger] list[i]).username@)
            && records[list[i].username@] == list[i]
    &&& forall|name: Seq<char>| #[trigger]
        records.contains_key(name) ==> exists|i: int|
            0 <= i < list.len() && (#[trigger] list[i]).username@ == name
}

impl StudentDirectory {
    spec fn holds(self, name: Seq<char>, i: int) -> bool {
        0 <= i < self.students.len() && self.students[i].username@ == name
    }

    /// No two students share a username.
    pub closed spec fn wf(self) -> bool {
        forall|i: int, j: int, name: Seq<char>|
            #![trigger self.holds(name, i), self.holds(name, j)]
            self.holds(name, i) && self.holds(name, j) ==> i == j
    }

    /// The students by username.
    pub closed spec fn records(self) -> Map<Seq<char>, Student> {
        Map::new(
            |name: Seq<char>| exists|i: int| self.holds(name, i),
            |name: Seq<char>| self.students[choose|i: int| self.holds(name, i)],
        )
    }

    proof fn lemma_record_at(self, i: int)
        requires
            self.wf(),
            0 <= i < self.students.len(),
        ensures
            self.records().contains_key(self.students[i].username@),
            self.records()[self.students[i].username@] == self.students[i],
    {
        let name = self.students[i].username@;
        assert(self.holds(name, i));
        let k = choose|k: int| self.holds(name, k);
        assert(self.holds(name, k));
    }

    /// An empty directory.
    pub fn new() -> (directory: StudentDirectory)
        ensures
            directory.wf(),
            directory.records() == Map::<Seq<char>, Student>::empty(),
            directory@ == Map::<Seq<char>, StudentView>::empty(),
    {
        let directory = StudentDirectory { students: Vec::new() };
        assert(directory.records() =~= Map::<Seq<char>, Student>::empty());
        assert(directory@ =~= Map::<Seq<char>, StudentView>::empty());
        directory
    }

    /// Loads the directory from the rows of the students' table, in order.
    pub fn from_records(rows: Vec<Student>) -> (directory: StudentDirectory)
        ensures
            directory.wf(),
            directory.records() == loaded(rows@),
    {
        let mut directory = StudentDirectory::new();
        let ghost all = rows@;
        for row in iter: rows
            invariant
                directory.wf(),
                iter.seq() == all,
                directory.records() == loaded(all.take(iter.index() as int)),
        {
            let ghost k = iter.index() as int;
            let mut student = row;
            student.open_pr_count = 0;
            student.merged_pr_count = 0;
            proof {
                assert(all.take(k + 1).drop_last() =~= all.take(k));
                assert(student == all[k].zeroed());
            }
            directory.insert(student);
        }
        proof {
            assert(all.take(all.len() as int) =~= all);
        }
        directory
    }

    spec fn names_before(self, k: int) -> Set<Seq<char>> {
        Set::new(|name: Seq<char>| exists|i: int| 0 <= i < k && self.holds(name, i))
    }

    proof fn lemma_names_before(self, k: int)
        requires
            self.wf(),
            0 <= k <= self.students.len(),
        ensures
            self.names_before(k).finite(),
            self.names_before(k).len() == k,
        decreases k,
    {
        if k == 0 {
            assert(self.names_before(0) =~= Set::<Seq<char>>::empty());
        } else {
            self.lemma_names_before(k - 1);
            let name = self.students[k - 1].username@;
            assert(self.holds(name, k - 1));
            assert(!self.names_before(k - 1).contains(name)) by {
                if self.names_before(k - 1).contains(name) {
                    let i = choose|i: int| 0 <= i < k - 1 && self.holds(name, i);
                    assert(self.holds(name, i) && self.holds(name, k - 1));
                }
            }
            assert(self.names_before(k) =~= self.names_before(k - 1).insert(name)) by {
                assert forall|other: Seq<char>| self.names_before(k).contains(other) implies self.names_before(
                    k - 1,
                ).insert(name).contains(other) by {
                    let i = choose|i: int| 0 <= i < k && self.holds(other, i);
                    if i < k - 1 {
                        assert(self.holds(other, i));
                    }
                }
            }
        }
    }

    /// The number of students.
    pub fn len(&self) -> (n: usize)
        requires
            self.wf(),
        ensures
            self.records().dom().finite(),
            n == self.records().dom().len(),
    {
        proof {
            self.lemma_names_before(self.students.len() as int);
            assert(self.records().dom() =~= self.names_before(self.students.len() as int));
        }
        self.students.len()
    }

    fn position(&self, name: &String) -> (found: Option<usize>)
        ensures
            match found {
                Some(i) => self.holds(name@, i as int),
                None => forall|i: int| !self.holds(name@, i),
            },
    {
        let mut i: usize = 0;
        while i < self.students.len()
            invariant
                i <= self.students.len(),
                forall|k: int| 0 <= k < i ==> !self.holds(name@, k),
            decreases self.students.len() - i,
        {
            if self.students[i].username == *name {
                return Some(i);
            }
            i += 1;
        }
        None
    }

    /// The students, in the order in which their usernames were first
    /// entered.
    pub fn students(&self) -> (list: &Vec<Student>)
        requires
            self.wf(),
        ensures
            lists_records(list@, self.records()),
    {
        proof {
            assert forall|i: int| 0 <= i < self.students.len() implies self.records().contains_key(
                (#[trigger] self.students[i]).username@,
            ) && self.records()[self.students[i].username@] == self.students[i] by {
                self.lemma_record_at(i);
            }
            assert forall|i: int, j: int| 0 <= i < j < self.students.len() implies (
            #[trigger] self.students[i]).username@ != (#[trigger] self.students[j]).username@ by {
                let name = self.students[i].username@;
                if self.students[j].username@ == name {
                    assert(self.holds(name, i) && self.holds(name, j));
                }
            }
            assert forall|name: Seq<char>| #[trigger]
                self.records().contains_key(name) implies exists|i: int|
                0 <= i < self.students.len() && (#[trigger] self.students[i]).username@ == name by {
                let k = choose|k: int| self.holds(name, k);
                assert(self.holds(name, k));
            }
        }
        &self.students
    }

    /// The student called `name`, if the directory holds one.
    pub fn get(&self, name: &String) -> (student: Option<&Student>)
        requires
            self.wf(),
        ensures
            match student {
                Some(found) => {
                    &&& self.records().contains_key(name@)
                    &&& *found == self.records()[name@]
                    &&& self@.contains_key(name@)
                    &&& found@ == self@[name@]
                    &&& found.username@ == name@
                },
                None => !self.records().contains_key(name@) && !self@.contains_key(name@),
            },
    {
        match self.position(name) {
            Some(i) => {
                proof {
                    self.lemma_record_at(i as int);
                    assert(self.holds(name@, i as int));
                }
                Some(&self.students[i])
            },
            None => None,
        }
    }

    /// Enters `student` under the student's username, in place of whoever
    /// was held under it before.
    pub fn insert(&mut self, student: Student)
        requires
            old(self).wf(),
        ensures
            final(self).wf(),
            final(self).records() == old(self).records().insert(student.username@, student),
            final(self)@ == old(self)@.insert(student.username@, student@),
    {
        let found = self.position(&student.username);
        let ghost before = *self;
        let ghost name = student.username@;
        match found {
            Some(i) => {
                self.students[i] = student;
                proof {
                    assert forall|other: Seq<char>, k: int| before.holds(other, k) == self.holds(other, k) by {
                        if k == i {
                            assert(before.holds(name, i as int));
                        }
                    }
                    self.lemma_updated(before, i as int);
                }
            },
            None => {
                self.students.push(student);
                proof {
                    let last = before.students.len() as int;
                    assert(self.holds(name, last));
                    assert forall|other: Seq<char>, k: int| self.holds(other, k) == (before.holds(other, k) || (
                    other == name && k == last)) by {}
                    assert(self.wf()) by {
                        assert forall|a: int, b: int, other: Seq<char>|
                            #![trigger self.holds(other, a), self.holds(other, b)]
                            self.holds(other, a) && self.holds(other, b) implies a == b by {
                            if a != last && b != last {
                                assert(before.holds(other, a) && before.holds(other, b));
                            } else if a != last {
                                assert(before.holds(name, a));
                            } else if b != last {
                                assert(before.holds(name, b));
                            }
                        }
                    }
                    assert forall|other: Seq<char>| before.records().contains_key(other) implies
                        self.records().contains_key(other) && self.records()[other] == before.records()[other] by {
                        let k = choose|k: int| before.holds(other, k);
                        assert(before.holds(other, k));
                        before.lemma_record_at(k);
                        self.lemma_record_at(k);
                    }
                    self.lemma_record_at(last);
                    assert forall|other: Seq<char>| self.records().contains_key(other) implies other == name
                        || before.records().contains_key(other) by {
                        let k = choose|k: int| self.holds(other, k);
                        assert(self.holds(other, k));
                        if other != name {
                            assert(before.holds(other, k));
                        }
                    }
                    assert(self.records() =~= before.records().insert(name, student));
                }
            },
        }
        assert(self@ =~= before@.insert(name, student@));
    }

    /// Counts one more open pull request for the student called `name`; a
    /// name that the directory does not hold changes nothing.
    pub fn add_open(&mut self, name: &String)
        requires
            old(self).wf(),
            old(self)@.contains_key(name@) ==> old(self)@[name@].open_pr_count < u32::MAX,
        ensures
            final(self).wf(),
            final(self)@ == plus_open(old(self)@, name@),
            final(self).same_profiles(*old(self)),
    {
        let ghost before = *self;
        match self.position(name) {
            Some(i) => {
                proof {
                    before.lemma_record_at(i as int);
                }
                let slot = &mut self.students[i];
                slot.open_pr_count = slot.open_pr_count + 1;
                proof {
                    self.lemma_updated(before, i as int);
                    self.lemma_counted(before, name@);
                }
            },
            None => {
                proof {
                    before.lemma_absent(name@);
                }
            },
        }
    }

    /// Counts one more merged pull request for the student called `name`; a
    /// name that the directory does not hold changes nothing.
    pub fn add_merged(&mut self, name: &String)
        requires
            old(self).wf(),
            old(self)@.contains_key(name@) ==> old(self)@[name@].merged_pr_count < u32::MAX,
        ensures
            final(self).wf(),
            final(self)@ == plus_merged(old(self)@, name@),
            final(self).same_profiles(*old(self)),
    {
        let ghost before = *self;
        match self.position(name) {
            Some(i) => {
                proof {
                    before.lemma_record_at(i as int);
                }
                let slot = &mut self.students[i];
                slot.merged_pr_count = slot.merged_pr_count + 1;
                proof {
                    self.lemma_updated(before, i as int);
                    self.lemma_counted(before, name@);
                }
            },
            None => {
                proof {
                    before.lemma_absent(name@);
                }
            },
        }
    }

    /// A name that no slot holds is not among the records.
    proof fn lemma_absent(self, name: Seq<char>)
        requires
            forall|i: int| !self.holds(name, i),
        ensures
            !self.records().contains_key(name),
            !self@.contains_key(name),
            self.same_profiles(self),
    {
    }

    /// The same students as `before`, none changed but in the counters.
    pub open spec fn same_profiles(self, before: StudentDirectory) -> bool {
        &&& self.records().dom() == before.records().dom()
        &&& forall|name: Seq<char>| #[trigger]
            self.records().contains_key(name) ==> self.records()[name].same_profile(before.records()[name])
    }

    /// Replacing the record of `name` by one that differs in the counters
    /// only gives the former view with the new counters under `name`.
    proof fn lemma_counted(self, before: StudentDirectory, name: Seq<char>)
        requires
            before.records().contains_key(name),
            self.records() == before.records().insert(name, self.records()[name]),
            self.records()[name].same_profile(before.records()[name]),
        ensures
            self@ == before@.insert(name, self.records()[name]@),
            self.same_profiles(before),
    {
        assert(self.records().dom() =~= before.records().dom());
        assert(self@ =~= before@.insert(name, self.records()[name]@));
    }

    /// After slot `i` took a student of the same username, the records are
    /// the former ones with that student in place of the former one.
    proof fn lemma_updated(self, before: StudentDirectory, i: int)
        requires
            before.wf(),
            0 <= i < before.students.len(),
            self.students@ == before.students@.update(i, self.students[i]),
            self.students[i].username@ == before.students[i].username@,
        ensures
            self.wf(),
            self.records() == before.records().insert(self.students[i].username@, self.students[i]),
    {
        let name = self.students[i].username@;
        assert forall|other: Seq<char>, k: int| before.holds(other, k) == self.holds(other, k) by {}
        assert(self.wf()) by {
            assert forall|a: int, b: int, other: Seq<char>|
                #![trigger self.holds(other, a), self.holds(other, b)]
                self.holds(other, a) && self.holds(other, b) implies a == b by {
                assert(before.holds(other, a) && before.holds(other, b));
            }
        }
        assert forall|other: Seq<char>| before.records().contains_key(other) implies self.records().contains_key(
            other,
        ) && (other != name ==> self.records()[other] == before.records()[other]) by {
            let k = choose|k: int| before.holds(other, k);
            assert(before.holds(other, k));
            assert(self.holds(other, k));
            before.lemma_record_at(k);
            self.lemma_record_at(k);
        }
        self.lemma_record_at(i);
        assert forall|other: Seq<char>| self.records().contains_key(other) implies before.records().contains_key(
            other,
        ) by {
            let k = choose|k: int| self.holds(other, k);
            assert(self.holds(other, k));
            assert(before.holds(other, k));
        }
        assert(self.records() =~= before.records().insert(name, self.students[i]));
    }
}

} // verus!
