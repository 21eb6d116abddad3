//! A bounded, in-memory collection of student records.
//!
//! A record holds a name (at most `MAX_NAME_LEN` bytes), an age, and a
//! grade. The collection is created with a fixed capacity, keeps names
//! unique, and supports linear lookup and swap-removal by any field.

use vstd::prelude::*;
use vstd::string::StringSliceAdditionalSpecFns;

verus! {

/// The largest number of bytes a record's name may hold.
pub const MAX_NAME_LEN: usize = 30;

/// A record's name: a byte string of at most `MAX_NAME_LEN` bytes.
pub struct Name {
    bytes: Vec<u8>,
}

impl View for Name {
    type V = Seq<u8>;

    closed spec fn view(&self) -> Seq<u8> {
        self.bytes@
    }
}

impl Name {
    #[verifier::type_invariant]
    spec fn inv(self) -> bool {
        self.bytes@.len() <= MAX_NAME_LEN
    }

    /// Builds a name from raw bytes; refuses more than `MAX_NAME_LEN` bytes.
    pub fn try_from_bytes(bytes: Vec<u8>) -> (r: Option<Name>)
        ensures
            bytes@.len() <= MAX_NAME_LEN ==> (r matches Some(n) && n@ == bytes@),
            bytes@.len() > MAX_NAME_LEN ==> r is None,
    {
        if bytes.len() <= MAX_NAME_LEN {
            Some(Name { bytes })
        } else {
            None
        }
    }

    /// Builds a name from the UTF-8 bytes of a string slice; refuses
    /// more than `MAX_NAME_LEN` bytes.
    pub fn try_from_str(s: &str) -> (r: Option<Name>)
        ensures
            s.spec_bytes().len() <= MAX_NAME_LEN ==> (r matches Some(n) && n@ == s.spec_bytes()),
            s.spec_bytes().len() > MAX_NAME_LEN ==> r is None,
    {
        Name::try_from_bytes(s.as_bytes_vec())
    }

    /// The bytes this name holds.
    pub fn as_bytes(&self) -> (r: &Vec<u8>)
        ensures
            r@ == self@,
    {
        &self.bytes
    }
}

/// True exactly when the two names hold the same bytes.
pub fn name_eq(a: &Name, b: &Name) -> (r: bool)
    ensures
        r == (a@ == b@),
{
    bytes_eq(&a.bytes, &b.bytes)
}

fn bytes_eq(a: &Vec<u8>, b: &Vec<u8>) -> (r: bool)
    ensures
        r == (a@ == b@),
{
    if a.len() != b.len() {
        return false;
    }
    let mut i: usize = 0;
    while i < a.len()
        invariant
            i <= a@.len(),
            a@.len() == b@.len(),
            forall|j: int| 0 <= j < i ==> a@[j] == b@[j],
        decreases a@.len() - i,
    {
        if a[i] != b[i] {
            return false;
        }
        i = i + 1;
    }
    proof {
        assert(a@ =~= b@);
    }
    true
}

/// A record's age.
pub type Age = u8;

/// A record's grade, carried as the raw bit pattern of an IEEE-754
/// 32-bit value. The library compares grades bitwise; callers that
/// work in floating point convert at the boundary.
pub type Grade = u32;

/// Which record field a caller wants to search by.
#[derive(Clone, Copy, PartialEq, Eq, Structural, Debug)]
pub enum SearchOption {
    Name,
    Age,
    Grade,
}

impl SearchOption {
    /// Reads a search choice from the first character of `s`:
    /// `'1'` is by name, `'2'` by age, `'3'` by grade.
    pub fn from_str(s: &str) -> (r: Result<SearchOption, ()>)
        requires
            s@.len() > 0,
        ensures
            r == (if s@[0] == '1' {
                Ok::<SearchOption, ()>(SearchOption::Name)
            } else if s@[0] == '2' {
                Ok::<SearchOption, ()>(SearchOption::Age)
            } else if s@[0] == '3' {
                Ok::<SearchOption, ()>(SearchOption::Grade)
            } else {
                Err::<SearchOption, ()>(())
            }),
    {
        let c = s.get_char(0);
        if c == '1' {
            Ok(SearchOption::Name)
        } else if c == '2' {
            Ok(SearchOption::Age)
        } else if c == '3' {
            Ok(SearchOption::Grade)
        } else {
            Err(())
        }
    }
}

/// Why an operation on a `StudentList` was refused.
#[derive(Clone, Copy, PartialEq, Eq, Structural, Debug)]
pub enum ErrorKind {
    /// The list already holds as many records as its capacity allows.
    CapacityExceeded,
    /// A record with the same name is already present.
    DuplicateName,
    /// No record matches the given field value.
    NotFound,
}

/// One stored record.
pub struct Student {
    pub name: Name,
    pub age: Age,
    pub grade: Grade,
}

/// The mathematical model of one record.
pub ghost struct StudentView {
    pub name: Seq<u8>,
    pub age: Age,
    pub grade: Grade,
}

impl View for Student {
    type V = StudentView;

    open spec fn view(&self) -> StudentView {
        StudentView { name: self.name@, age: self.age, grade: self.grade }
    }
}

/// True when some record in `rows` has name `n`.
pub open spec fn has_name(rows: Seq<StudentView>, n: Seq<u8>) -> bool {
    exists|i: int| 0 <= i < rows.len() && rows[i].name == n
}

/// True when some record in `rows` has age `a`.
pub open spec fn has_age(rows: Seq<StudentView>, a: Age) -> bool {
    exists|i: int| 0 <= i < rows.len() && rows[i].age == a
}

/// True when some record in `rows` has grade `g`.
pub open spec fn has_grade(rows: Seq<StudentView>, g: Grade) -> bool {
    exists|i: int| 0 <= i < rows.len() && rows[i].grade == g
}

/// True when `i` indexes the first record in `rows` whose name is `n`.
pub open spec fn is_first_name_match(rows: Seq<StudentView>, n: Seq<u8>, i: int) -> bool {
    &&& 0 <= i < rows.len()
    &&& rows[i].name == n
    &&& forall|j: int| 0 <= j < i ==> rows[j].name != n
}

/// True when `i` indexes the first record in `rows` whose age is `a`.
pub open spec fn is_first_age_match(rows: Seq<StudentView>, a: Age, i: int) -> bool {
    &&& 0 <= i < rows.len()
    &&& rows[i].age == a
    &&& forall|j: int| 0 <= j < i ==> rows[j].age != a
}

/// True when `i` indexes the first record in `rows` whose grade is `g`.
pub open spec fn is_first_grade_match(rows: Seq<StudentView>, g: Grade, i: int) -> bool {
    &&& 0 <= i < rows.len()
    &&& rows[i].grade == g
    &&& forall|j: int| 0 <= j < i ==> rows[j].grade != g
}

/// `rows` after a swap-removal at index `i`: the last record moves into
/// slot `i` and the sequence shrinks by one.
pub open spec fn swap_removed(rows: Seq<StudentView>, i: int) -> Seq<StudentView> {
    rows.update(i, rows.last()).drop_last()
}

/// After a record `s` whose name was not yet present is appended to
/// `rows`, the list is longer by exactly one, a lookup by each of the
/// record's three fields finds a match, and the first (and only) match
/// by name is `s` itself.
pub proof fn lemma_added_record_found(rows: Seq<StudentView>, s: StudentView)
    requires
        forall|i: int| 0 <= i < rows.len() ==> rows[i].name != s.name,
    ensures
        rows.push(s).len() == rows.len() + 1,
        has_name(rows.push(s), s.name),
        has_age(rows.push(s), s.age),
        has_grade(rows.push(s), s.grade),
        is_first_name_match(rows.push(s), s.name, rows.len() as int),
        forall|i: int|
            is_first_name_match(rows.push(s), s.name, i)
                ==> i == rows.len() && rows.push(s)[i] == s,
{
    let rows2 = rows.push(s);
    let w = rows.len() as int;
    assert(rows2[w] == s);
    assert(0 <= w < rows2.len() && rows2[w].name == s.name);
    assert(0 <= w < rows2.len() && rows2[w].age == s.age);
    assert(0 <= w < rows2.len() && rows2[w].grade == s.grade);
    assert forall|i: int| is_first_name_match(rows2, s.name, i) implies i == w && rows2[i] == s by {
        if i < w {
            assert(rows2[i] == rows[i]);
        }
    }
}

/// A swap-removal keeps every record but the one at `i`: each
/// remaining slot holds either the record it held before or the record
/// that was last, names stay pairwise distinct, and when the removed
/// name was unique it is gone from the result.
proof fn lemma_swap_removed(rows: Seq<StudentView>, i: int)
    requires
        0 <= i < rows.len(),
        forall|p: int, q: int| 0 <= p < q < rows.len() ==> rows[p].name != rows[q].name,
    ensures
        swap_removed(rows, i).len() == rows.len() - 1,
        forall|k: int|
            0 <= k < rows.len() - 1 ==> swap_removed(rows, i)[k] == (if k == i {
                rows[rows.len() - 1]
            } else {
                rows[k]
            }),
        forall|p: int, q: int|
            0 <= p < q < rows.len() - 1
                ==> swap_removed(rows, i)[p].name != swap_removed(rows, i)[q].name,
        forall|k: int| 0 <= k < rows.len() - 1 ==> swap_removed(rows, i)[k].name != rows[i].name,
{
    let out = swap_removed(rows, i);
    assert forall|k: int|
        0 <= k < rows.len() - 1 implies out[k] == (if k == i {
        rows[rows.len() - 1]
    } else {
        rows[k]
    }) by {
        assert(out[k] == rows.update(i, rows.last())[k]);
    }
    assert forall|k: int| 0 <= k < rows.len() - 1 implies out[k].name != rows[i].name by {
        if k == i {
            assert(out[k] == rows[rows.len() - 1]);
        }
    }
}

/// A capacity-bounded list of records with pairwise distinct names.
pub struct StudentList {
    students: Vec<Student>,
    capacity: usize,
}

impl View for StudentList {
    type V = Seq<StudentView>;

    closed spec fn view(&self) -> Seq<StudentView> {
        Seq::new(self.students@.len(), |i: int| self.students@[i]@)
    }
}

impl StudentList {
    /// The number of records the list may hold at most.
    pub closed spec fn spec_capacity(&self) -> nat {
        self.capacity as nat
    }

    /// Every list holds at most `spec_capacity()` records, their names
    /// are pairwise distinct, and each name is at most `MAX_NAME_LEN`
    /// bytes long.
    #[verifier::type_invariant]
    pub open spec fn wf(&self) -> bool {
        &&& self@.len() <= self.spec_capacity()
        &&& forall|i: int, j: int|
            0 <= i < j < self@.len() ==> self@[i].name != self@[j].name
        &&& forall|i: int| 0 <= i < self@.len() ==> self@[i].name.len() <= MAX_NAME_LEN
    }

    /// Creates an empty list with zero capacity; every add on it fails.
    pub fn new() -> (l: StudentList)
        ensures
            l@.len() == 0,
            l.spec_capacity() == 0,
    {
        StudentList { students: Vec::new(), capacity: 0 }
    }

    /// Creates an empty list that can hold at most `number_of_items`
    /// records.
    pub fn with_capacity(number_of_items: u8) -> (l: StudentList)
        ensures
            l@.len() == 0,
            l.spec_capacity() == number_of_items as nat,
    {
        StudentList { students: Vec::new(), capacity: number_of_items as usize }
    }

    /// The number of records the list can hold.
    pub fn capacity(&self) -> (r: usize)
        ensures
            r as nat == self.spec_capacity(),
    {
        self.capacity
    }

    /// The number of records currently stored.
    pub fn len(&self) -> (r: usize)
        ensures
            r == self@.len(),
    {
        self.students.len()
    }

    /// True when the list holds no records.
    pub fn is_empty(&self) -> (r: bool)
        ensures
            r == (self@.len() == 0),
    {
        self.students.len() == 0
    }

    /// Index of the first record named `name`, or `self@.len()` when
    /// there is none.
    fn index_of_name(&self, name: &Name) -> (r: usize)
        ensures
            r <= self@.len(),
            r < self@.len() ==> is_first_name_match(self@, name@, r as int),
            r == self@.len() ==> !has_name(self@, name@),
    {
        let mut i: usize = 0;
        while i < self.students.len()
            invariant
                i <= self.students@.len(),
                self@.len() == self.students@.len(),
                forall|j: int| 0 <= j < i ==> self@[j].name != name@,
            decreases self.students@.len() - i,
        {
            if name_eq(&self.students[i].name, name) {
                return i;
            }
            i = i + 1;
        }
        i
    }

    /// Index of the first record of age `age`, or `self@.len()` when
    /// there is none.
    fn index_of_age(&self, age: Age) -> (r: usize)
        ensures
            r <= self@.len(),
            r < self@.len() ==> is_first_age_match(self@, age, r as int),
            r == self@.len() ==> !has_age(self@, age),
    {
        let mut i: usize = 0;
        while i < self.students.len()
            invariant
                i <= self.students@.len(),
                self@.len() == self.students@.len(),
                forall|j: int| 0 <= j < i ==> self@[j].age != age,
            decreases self.students@.len() - i,
        {
            if self.students[i].age == age {
                return i;
            }
            i = i + 1;
        }
        i
    }

    /// Index of the first record of grade `grade`, or `self@.len()`
    /// when there is none.
    fn index_of_grade(&self, grade: Grade) -> (r: usize)
        ensures
            r <= self@.len(),
            r < self@.len() ==> is_first_grade_match(self@, grade, r as int),
            r == self@.len() ==> !has_grade(self@, grade),
    {
        let mut i: usize = 0;
        while i < self.students.len()
            invariant
                i <= self.students@.len(),
                self@.len() == self.students@.len(),
                forall|j: int| 0 <= j < i ==> self@[j].grade != grade,
            decreases self.students@.len() - i,
        {
            if self.students[i].grade == grade {
                return i;
            }
            i = i + 1;
        }
        i
    }

    /// The first record named `name`, in insertion order, if any.
    pub fn get_by_name(&self, name: Name) -> (r: Option<&Student>)
        ensures
            match r {
                Some(s) => exists|i: int|
                    is_first_name_match(self@, name@, i) && s@ == self@[i],
                None => !has_name(self@, name@),
            },
    {
        let i = self.index_of_name(&name);
        if i < self.students.len() {
            Some(&self.students[i])
        } else {
            None
        }
    }

    /// The first record of age `age`, in insertion order, if any.
    pub fn get_by_age(&self, age: Age) -> (r: Option<&Student>)
        ensures
            match r {
                Some(s) => exists|i: int|
                    is_first_age_match(self@, age, i) && s@ == self@[i],
                None => !has_age(self@, age),
            },
    {
        let i = self.index_of_age(age);
        if i < self.students.len() {
            Some(&self.students[i])
        } else {
            None
        }
    }

    /// The first record of grade `grade`, in insertion order, if any.
    pub fn get_by_grade(&self, grade: Grade) -> (r: Option<&Student>)
        ensures
            match r {
                Some(s) => exists|i: int|
                    is_first_grade_match(self@, grade, i) && s@ == self@[i],
                None => !has_grade(self@, grade),
            },
    {
        let i = self.index_of_grade(grade);
        if i < self.students.len() {
            Some(&self.students[i])
        } else {
            None
        }
    }

    /// The record at position `i`, in the list's current order.
    pub fn get(&self, i: usize) -> (r: &Student)
        requires
            i < self@.len(),
        ensures
            r@ == self@[i as int],
    {
        &self.students[i]
    }

    /// Appends a record, unless the list is full (`CapacityExceeded`)
    /// or the name is already present (`DuplicateName`). On success the
    /// returned reference is the stored record.
    pub fn add(&mut self, name: Name, age: Age, grade: Grade) -> (r: Result<&Student, ErrorKind>)
        ensures
            final(self).spec_capacity() == old(self).spec_capacity(),
            final(self)@.len() <= final(self).spec_capacity(),
            old(self)@.len() >= old(self).spec_capacity() ==> final(self)@ == old(self)@
                && (r matches Err(e) && e == ErrorKind::CapacityExceeded),
            old(self)@.len() < old(self).spec_capacity() && has_name(old(self)@, name@)
                ==> final(self)@ == old(self)@
                && (r matches Err(e) && e == ErrorKind::DuplicateName),
            old(self)@.len() < old(self).spec_capacity() && !has_name(old(self)@, name@) ==> {
                &&& final(self)@ == old(self)@.push(
                    (StudentView { name: name@, age: age, grade: grade }),
                )
                &&& (r matches Ok(s) && s@ == (StudentView { name: name@, age: age, grade: grade }))
            },
    {
        proof {
            use_type_invariant(&*self);
            use_type_invariant(&name);
        }
        if self.students.len() >= self.capacity {
            return Err(ErrorKind::CapacityExceeded);
        }
        let dup = self.index_of_name(&name);
        if dup < self.students.len() {
            return Err(ErrorKind::DuplicateName);
        }
        let ghost old_rows = self@;
        let ghost added = StudentView { name: name@, age: age, grade: grade };
        let mut taken: Vec<Student> = Vec::new();
        core::mem::swap(&mut taken, &mut self.students);
        taken.push(Student { name, age, grade });
        proof {
            let new_rows = Seq::new(taken@.len(), |i: int| taken@[i]@);
            assert(new_rows =~= old_rows.push(added));
            assert forall|i: int, j: int|
                0 <= i < j < new_rows.len() implies new_rows[i].name != new_rows[j].name by {
                if j == old_rows.len() {
                    assert(!(0 <= i < old_rows.len() && old_rows[i].name == name@));
                }
            }
        }
        core::mem::swap(&mut taken, &mut self.students);
        proof {
            assert(self@ =~= old_rows.push(added));
        }
        let last: usize = self.students.len() - 1;
        Ok(&self.students[last])
    }

    /// Removes the first record named `student` by swap-removal, or
    /// fails with `NotFound`. Names are unique, so after a successful
    /// removal no record with that name remains.
    pub fn remove_by_name(&mut self, student: Name) -> (r: Result<(), ErrorKind>)
        ensures
            final(self).spec_capacity() == old(self).spec_capacity(),
            !has_name(old(self)@, student@) ==> final(self)@ == old(self)@
                && (r matches Err(e) && e == ErrorKind::NotFound),
            has_name(old(self)@, student@) ==> r == Ok::<(), ErrorKind>(())
                && final(self)@.len() == old(self)@.len() - 1
                && (exists|i: int|
                    is_first_name_match(old(self)@, student@, i)
                    && final(self)@ == swap_removed(old(self)@, i)),
            r == Ok::<(), ErrorKind>(()) ==> !has_name(final(self)@, student@),
    {
        proof {
            use_type_invariant(&*self);
        }
        let i = self.index_of_name(&student);
        if i >= self.students.len() {
            return Err(ErrorKind::NotFound);
        }
        let ghost old_rows = self@;
        proof {
            lemma_swap_removed(old_rows, i as int);
        }
        let mut taken: Vec<Student> = Vec::new();
        core::mem::swap(&mut taken, &mut self.students);
        taken.swap_remove(i);
        proof {
            assert(Seq::new(taken@.len(), |k: int| taken@[k]@) =~= swap_removed(
                old_rows,
                i as int,
            ));
        }
        core::mem::swap(&mut taken, &mut self.students);
        proof {
            assert(is_first_name_match(old_rows, student@, i as int) && self@ == swap_removed(
                old_rows,
                i as int,
            ));
            assert(!has_name(self@, student@));
        }
        Ok(())
    }

    /// Removes the first record of age `student` by swap-removal, or
    /// fails with `NotFound`.
    pub fn remove_by_age(&mut self, student: Age) -> (r: Result<(), ErrorKind>)
        ensures
            final(self).spec_capacity() == old(self).spec_capacity(),
            !has_age(old(self)@, student) ==> final(self)@ == old(self)@
                && (r matches Err(e) && e == ErrorKind::NotFound),
            has_age(old(self)@, student) ==> r == Ok::<(), ErrorKind>(())
                && final(self)@.len() == old(self)@.len() - 1
                && (exists|i: int|
                    is_first_age_match(old(self)@, student, i)
                    && final(self)@ == swap_removed(old(self)@, i)),
    {
        proof {
            use_type_invariant(&*self);
        }
        let i = self.index_of_age(student);
        if i >= self.students.len() {
            return Err(ErrorKind::NotFound);
        }
        let ghost old_rows = self@;
        proof {
            lemma_swap_removed(old_rows, i as int);
        }
        let mut taken: Vec<Student> = Vec::new();
        core::mem::swap(&mut taken, &mut self.students);
        taken.swap_remove(i);
        proof {
            assert(Seq::new(taken@.len(), |k: int| taken@[k]@) =~= swap_removed(
                old_rows,
                i as int,
            ));
        }
        core::mem::swap(&mut taken, &mut self.students);
        proof {
            assert(is_first_age_match(old_rows, student, i as int) && self@ == swap_removed(
                old_rows,
                i as int,
            ));
        }
        Ok(())
    }

    /// Removes the first record of grade `student` by swap-removal, or
    /// fails with `NotFound`.
    pub fn remove_by_grade(&mut self, student: Grade) -> (r: Result<(), ErrorKind>)
        ensures
            final(self).spec_capacity() == old(self).spec_capacity(),
            !has_grade(old(self)@, student) ==> final(self)@ == old(self)@
                && (r matches Err(e) && e == ErrorKind::NotFound),
            has_grade(old(self)@, student) ==> r == Ok::<(), ErrorKind>(())
                && final(self)@.len() == old(self)@.len() - 1
                && (exists|i: int|
                    is_first_grade_match(old(self)@, student, i)
                    && final(self)@ == swap_removed(old(self)@, i)),
    {
        proof {
            use_type_invariant(&*self);
        }
        let i = self.index_of_grade(student);
        if i >= self.students.len() {
            return Err(ErrorKind::NotFound);
        }
        let ghost old_rows = self@;
        proof {
            lemma_swap_removed(old_rows, i as int);
        }
        let mut taken: Vec<Student> = Vec::new();
        core::mem::swap(&mut taken, &mut self.students);
        taken.swap_remove(i);
        proof {
            assert(Seq::new(taken@.len(), |k: int| taken@[k]@) =~= swap_removed(
                old_rows,
                i as int,
            ));
        }
        core::mem::swap(&mut taken, &mut self.students);
        proof {
            assert(is_first_grade_match(old_rows, student, i as int) && self@ == swap_removed(
                old_rows,
                i as int,
            ));
        }
        Ok(())
    }

    /// Removes every record; the capacity is unchanged.
    pub fn clear(&mut self)
        ensures
            final(self)@.len() == 0,
            final(self).spec_capacity() == old(self).spec_capacity(),
    {
        let mut taken: Vec<Student> = Vec::new();
        core::mem::swap(&mut taken, &mut self.students);
    }
}

} // verus!
