//! Enumerated categories: each distinct name is given the integer label of its
//! position, so that it can be stored in a numeric search state.
use vstd::prelude::*;

use crate::text::{push_str, string_of};

verus! {

/// The label that marks an unset categorical value in a search state.
pub const EMPTY_CATEGORICAL_VALUE: i64 = -1;

/// The position of the first entry equal to `name`, if any.
pub open spec fn first_position(names: Seq<Seq<char>>, name: Seq<char>) -> Option<int>
    decreases names.len(),
{
    if names.len() == 0 {
        None
    } else {
        match first_position(names.drop_last(), name) {
            Some(i) => Some(i),
            None => if names.last() == name {
                Some(names.len() - 1)
            } else {
                None
            },
        }
    }
}

/// No name occurs twice.
pub open spec fn all_distinct(names: Seq<Seq<char>>) -> bool {
    forall|i: int, j: int| 0 <= i < j < names.len() ==> names[i] != names[j]
}

/// The characters of each string.
pub open spec fn views_of(names: Seq<String>) -> Seq<Seq<char>> {
    names.map_values(|s: String| s@)
}

/// A bijection between distinct names and the labels `0..n`: a name's label is its
/// position.
pub struct CategoricalMapping {
    categories: Vec<String>,
}

/// The message of a name given twice.
pub open spec fn duplicate_message(name: Seq<char>) -> Seq<char> {
    "category '"@ + name + "' appears more than once"@
}

/// The entry at `j` repeats an earlier one, and no entry before it does.
pub open spec fn first_repeat(names: Seq<Seq<char>>, j: int) -> bool {
    &&& 0 <= j < names.len()
    &&& exists|i: int| 0 <= i < j && names[i] == names[j]
    &&& forall|a: int, b: int| 0 <= a < b < j ==> names[a] != names[b]
}

/// If the first entry equal to `name` is at `i`, entry `i` equals `name` and no
/// earlier one does; if there is none, no entry equals `name`.
pub proof fn lemma_first_position(names: Seq<Seq<char>>, name: Seq<char>)
    ensures
        first_position(names, name) matches Some(i) ==> 0 <= i < names.len() && names[i] == name
            && forall|j: int| 0 <= j < i ==> names[j] != name,
        first_position(names, name) is None ==> forall|j: int|
            0 <= j < names.len() ==> names[j] != name,
    decreases names.len(),
{
    if names.len() > 0 {
        let p = names.drop_last();
        lemma_first_position(p, name);
        assert forall|j: int| 0 <= j < p.len() implies p[j] == names[j] by {}
    }
}

impl CategoricalMapping {
    /// The names, by label.
    pub closed spec fn names(self) -> Seq<Seq<char>> {
        views_of(self.categories@)
    }

    /// The names are distinct and their labels fit in `i64`.
    pub open spec fn wf(self) -> bool {
        all_distinct(self.names()) && self.names().len() <= i64::MAX
    }

    /// A mapping over the given names; an error naming the first name, by position of
    /// its second occurrence, that occurs twice.
    pub fn new(categories: Vec<String>) -> (r: Result<CategoricalMapping, String>)
        requires
            categories@.len() <= i64::MAX,
        ensures
            all_distinct(views_of(categories@)) ==> (r matches Ok(m) && m.names() == views_of(
                categories@,
            ) && m.wf()),
            !all_distinct(views_of(categories@)) ==> (r matches Err(m) && exists|j: int|
                #[trigger] first_repeat(views_of(categories@), j) && m@ == duplicate_message(
                    views_of(categories@)[j],
                )),
    {
        let ghost names = views_of(categories@);
        let mut j: usize = 0;
        while j < categories.len()
            invariant
                j <= categories@.len(),
                names == views_of(categories@),
                forall|a: int, b: int| 0 <= a < b < j ==> names[a] != names[b],
            decreases categories@.len() - j,
        {
            let mut i: usize = 0;
            while i < j
                invariant
                    i <= j < categories@.len(),
                    names == views_of(categories@),
                    forall|k: int| 0 <= k < i ==> names[k] != names[j as int],
                    forall|a: int, b: int| 0 <= a < b < j ==> names[a] != names[b],
                decreases j - i,
            {
                if categories[i] == categories[j] {
                    let mut msg: Vec<char> = Vec::new();
                    push_str(&mut msg, "category '");
                    push_str(&mut msg, categories[j].as_str());
                    push_str(&mut msg, "' appears more than once");
                    proof {
                        assert(names[i as int] == names[j as int]);
                        assert(names[j as int] == categories@[j as int]@);
                        assert(first_repeat(names, j as int));
                    }
                    return Err(string_of(&msg));
                }
                i = i + 1;
            }
            j = j + 1;
        }
        Ok(CategoricalMapping { categories })
    }

    /// The number of names.
    pub fn n_categories(&self) -> (r: usize)
        ensures
            r == self.names().len(),
    {
        self.categories.len()
    }

    /// The label of `name`, if it is one of the names.
    pub fn get_label(&self, name: &str) -> (r: Option<i64>)
        requires
            self.wf(),
        ensures
            r matches Some(l) ==> first_position(self.names(), name@) == Some(l as int),
            r is None ==> first_position(self.names(), name@) is None,
            r matches Some(l) ==> 0 <= l < self.names().len() && self.names()[l as int] == name@,
            r is None <==> !self.names().contains(name@),
    {
        proof {
            lemma_first_position(self.names(), name@);
        }
        let target = name.to_owned();
        let mut i: usize = 0;
        while i < self.categories.len()
            invariant
                i <= self.categories@.len(),
                target@ == name@,
                self.wf(),
                forall|k: int| 0 <= k < i ==> self.names()[k] != name@,
            decreases self.categories@.len() - i,
        {
            if self.categories[i] == target {
                proof {
                    assert(self.names()[i as int] == name@);
                    lemma_first_position(self.names(), name@);
                    match first_position(self.names(), name@) {
                        Some(k) => {
                            if k < i {
                                assert(self.names()[k] != name@);
                            }
                            if k > i {
                                assert(self.names()[i as int] != name@);
                            }
                        },
                        None => {
                            assert(self.names()[i as int] != name@);
                        },
                    }
                }
                return Some(i as i64);
            }
            i = i + 1;
        }
        proof {
            if self.names().contains(name@) {
                let k = choose|k: int| 0 <= k < self.names().len() && self.names()[k] == name@;
                assert(self.names()[k] != name@);
            }
        }
        None
    }

    /// The name with label `label`, if there is one.
    pub fn get_categorical(&self, label: i64) -> (r: Option<&String>)
        ensures
            0 <= label < self.names().len() ==> (r matches Some(s) && s@ == self.names()[label as int]),
            !(0 <= label < self.names().len()) ==> r is None,
    {
        if label < 0 {
            return None;
        }
        if label as u64 >= self.categories.len() as u64 {
            return None;
        }
        Some(&self.categories[label as usize])
    }
}

} // verus!
