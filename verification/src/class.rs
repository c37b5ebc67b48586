//! Class descriptors, and the chains that their parents form.
//!
//! A class names its parent. The chain of a class is the class itself, then
//! its parent, then the parent of that one, and so on, up to the first class
//! whose parent is not among the known classes. A class is looked up by its
//! name; of several classes with one name the first is found.

use vstd::prelude::*;
use vstd::seq_lib::*;
use vstd::set_lib::*;

use crate::error::CompileError;

verus! {

/// A class as the compiler sees it: its name, the names it refers to, and
/// its static integer and string fields.
///
/// A field list is a list of assignments: where a name occurs more than once,
/// the last occurrence holds the field's value.
#[derive(Debug, Clone, PartialEq, Eq)]
pub struct JavaFile {
    /// The name of the class.
    pub name: String,
    /// Whether the class is abstract.
    pub abst: bool,
    /// The name of the parent class; empty where there is none.
    pub extends: String,
    /// The name of the interface; empty where there is none.
    pub implements: String,
    /// The static integer fields, by name.
    pub int_fields: Vec<(String, i32)>,
    /// The static string fields, by name.
    pub str_fields: Vec<(String, String)>,
}

/// The mathematical value of a class.
pub struct ClassView {
    /// The name of the class.
    pub name: Seq<char>,
    /// Whether the class is abstract.
    pub abst: bool,
    /// The name of the parent class.
    pub extends: Seq<char>,
    /// The name of the interface.
    pub implements: Seq<char>,
    /// The value of each static integer field.
    pub int_fields: Map<Seq<char>, i32>,
    /// The value of each static string field.
    pub str_fields: Map<Seq<char>, Seq<char>>,
}

/// The integer fields that a list of assignments defines.
pub open spec fn int_fields_view(fields: Seq<(String, i32)>) -> Map<Seq<char>, i32>
    decreases fields.len(),
{
    if fields.len() == 0 {
        Map::empty()
    } else {
        int_fields_view(fields.drop_last()).insert(fields.last().0@, fields.last().1)
    }
}

/// The string fields that a list of assignments defines.
pub open spec fn str_fields_view(fields: Seq<(String, String)>) -> Map<Seq<char>, Seq<char>>
    decreases fields.len(),
{
    if fields.len() == 0 {
        Map::empty()
    } else {
        str_fields_view(fields.drop_last()).insert(fields.last().0@, fields.last().1@)
    }
}

impl View for JavaFile {
    type V = ClassView;

    open spec fn view(&self) -> ClassView {
        ClassView {
            name: self.name@,
            abst: self.abst,
            extends: self.extends@,
            implements: self.implements@,
            int_fields: int_fields_view(self.int_fields@),
            str_fields: str_fields_view(self.str_fields@),
        }
    }
}

/// The values of a sequence of classes.
pub open spec fn classes_view(classes: Seq<JavaFile>) -> Seq<ClassView> {
    classes.map_values(|class: JavaFile| class@)
}

/// The values of a sequence of references to classes.
pub open spec fn chain_view(chain: Seq<&JavaFile>) -> Seq<ClassView> {
    chain.map_values(|class: &JavaFile| class@)
}

/// `i` is the index of the first class of `classes` with the name `name`.
pub open spec fn is_first_named(classes: Seq<ClassView>, name: Seq<char>, i: int) -> bool {
    &&& 0 <= i < classes.len()
    &&& classes[i].name == name
    &&& forall|j: int| 0 <= j < i ==> (#[trigger] classes[j]).name != name
}

/// The index of the first class of `classes` with the name `name`, if there
/// is one.
pub open spec fn first_named(classes: Seq<ClassView>, name: Seq<char>) -> Option<int> {
    if exists|i: int| is_first_named(classes, name, i) {
        Some(choose|i: int| is_first_named(classes, name, i))
    } else {
        None
    }
}

/// The index in `classes` of the parent of `class`, if it is known.
pub open spec fn parent_of(classes: Seq<ClassView>, class: ClassView) -> Option<int> {
    first_named(classes, class.extends)
}

/// `chain` is the chain of `start` among `classes`: it starts with `start`,
/// each further element is the parent of the one before it, and the parent
/// of the last one is not known.
pub open spec fn is_chain(classes: Seq<ClassView>, start: ClassView, chain: Seq<ClassView>) -> bool {
    &&& chain.len() >= 1
    &&& chain[0] == start
    &&& forall|k: int|
        0 <= k < chain.len() - 1 ==> is_link(classes, #[trigger] chain[k], chain[k + 1])
    &&& parent_of(classes, chain.last()) is None
}

/// `next` is the parent of `class` among `classes`.
pub open spec fn is_link(classes: Seq<ClassView>, class: ClassView, next: ClassView) -> bool {
    match parent_of(classes, class) {
        Some(p) => next == classes[p],
        None => false,
    }
}

/// `class` is the class of `objects` that is the parent of a class with the
/// value `child`.
pub open spec fn is_parent(objects: Seq<JavaFile>, child: ClassView, class: &JavaFile) -> bool {
    match parent_of(classes_view(objects), child) {
        Some(p) => 0 <= p < objects.len() && *class == objects[p],
        None => false,
    }
}

/// Whether `start` has a chain among `classes`, that is, whether following
/// the parents from `start` comes to an end.
pub open spec fn has_chain(classes: Seq<ClassView>, start: ClassView) -> bool {
    exists|chain: Seq<ClassView>| is_chain(classes, start, chain)
}

/// The chain of `start` among `classes`, where it has one.
pub open spec fn chain_of(classes: Seq<ClassView>, start: ClassView) -> Seq<ClassView> {
    choose|chain: Seq<ClassView>| is_chain(classes, start, chain)
}

/// The first class with a given name has one index only.
pub proof fn lemma_first_named(classes: Seq<ClassView>, name: Seq<char>, i: int)
    requires
        is_first_named(classes, name, i),
    ensures
        first_named(classes, name) == Some(i),
{
    let j = choose|j: int| is_first_named(classes, name, j);
    assert(is_first_named(classes, name, j));
    if j < i {
        assert(classes[j].name != name);
    }
    if i < j {
        assert(classes[i].name != name);
    }
}

/// Where no class has the name, none is found.
pub proof fn lemma_none_named(classes: Seq<ClassView>, name: Seq<char>)
    requires
        forall|j: int| 0 <= j < classes.len() ==> (#[trigger] classes[j]).name != name,
    ensures
        first_named(classes, name) is None,
{
}

/// What is found has the name, and lies within the sequence.
pub proof fn lemma_first_named_is_first(classes: Seq<ClassView>, name: Seq<char>)
    ensures
        match first_named(classes, name) {
            Some(i) => is_first_named(classes, name, i),
            None => forall|j: int| 0 <= j < classes.len() ==> (#[trigger] classes[j]).name != name,
        },
{
    if first_named(classes, name) is None {
        assert forall|j: int| 0 <= j < classes.len() implies (#[trigger] classes[j]).name
            != name by {
            if classes[j].name == name {
                lemma_some_named(classes, name, j);
            }
        }
    }
}

/// Where a class has the name, a first one has it.
proof fn lemma_some_named(classes: Seq<ClassView>, name: Seq<char>, j: int)
    requires
        0 <= j < classes.len(),
        classes[j].name == name,
    ensures
        exists|i: int| is_first_named(classes, name, i),
    decreases j,
{
    if exists|k: int| 0 <= k < j && (#[trigger] classes[k]).name == name {
        let k = choose|k: int| 0 <= k < j && (#[trigger] classes[k]).name == name;
        lemma_some_named(classes, name, k);
    } else {
        assert(is_first_named(classes, name, j));
    }
}

/// The value of a field is that of the last assignment to its name.
proof fn lemma_int_field_last(fields: Seq<(String, i32)>, name: Seq<char>, i: int)
    requires
        0 <= i < fields.len(),
        fields[i].0@ == name,
        forall|j: int| i < j < fields.len() ==> (#[trigger] fields[j]).0@ != name,
    ensures
        int_fields_view(fields).contains_key(name),
        int_fields_view(fields)[name] == fields[i].1,
    decreases fields.len(),
{
    if i < fields.len() - 1 {
        assert(fields[fields.len() - 1].0@ != name);
        lemma_int_field_last(fields.drop_last(), name, i);
    }
}

/// A name that no assignment has is no field.
proof fn lemma_int_field_absent(fields: Seq<(String, i32)>, name: Seq<char>)
    requires
        forall|j: int| 0 <= j < fields.len() ==> (#[trigger] fields[j]).0@ != name,
    ensures
        !int_fields_view(fields).contains_key(name),
    decreases fields.len(),
{
    if fields.len() > 0 {
        assert(fields[fields.len() - 1].0@ != name);
        lemma_int_field_absent(fields.drop_last(), name);
    }
}

/// The value of a field is that of the last assignment to its name.
proof fn lemma_str_field_last(fields: Seq<(String, String)>, name: Seq<char>, i: int)
    requires
        0 <= i < fields.len(),
        fields[i].0@ == name,
        forall|j: int| i < j < fields.len() ==> (#[trigger] fields[j]).0@ != name,
    ensures
        str_fields_view(fields).contains_key(name),
        str_fields_view(fields)[name] == fields[i].1@,
    decreases fields.len(),
{
    if i < fields.len() - 1 {
        assert(fields[fields.len() - 1].0@ != name);
        lemma_str_field_last(fields.drop_last(), name, i);
    }
}

/// A name that no assignment has is no field.
proof fn lemma_str_field_absent(fields: Seq<(String, String)>, name: Seq<char>)
    requires
        forall|j: int| 0 <= j < fields.len() ==> (#[trigger] fields[j]).0@ != name,
    ensures
        !str_fields_view(fields).contains_key(name),
    decreases fields.len(),
{
    if fields.len() > 0 {
        assert(fields[fields.len() - 1].0@ != name);
        lemma_str_field_absent(fields.drop_last(), name);
    }
}

/// Each element of `links` but the last is followed by its parent.
pub open spec fn is_linked(classes: Seq<ClassView>, links: Seq<ClassView>) -> bool {
    forall|k: int| 0 <= k < links.len() - 1 ==> is_link(classes, #[trigger] links[k], links[k + 1])
}

/// A chain starts with every sequence of links that starts where it starts.
proof fn lemma_chain_prefix(
    classes: Seq<ClassView>,
    links: Seq<ClassView>,
    chain: Seq<ClassView>,
    k: int,
)
    requires
        links.len() >= 1,
        chain.len() >= 1,
        links[0] == chain[0],
        is_linked(classes, links),
        is_linked(classes, chain),
        parent_of(classes, chain.last()) is None,
        0 <= k < links.len(),
    ensures
        k < chain.len(),
        chain[k] == links[k],
    decreases k,
{
    if k > 0 {
        lemma_chain_prefix(classes, links, chain, k - 1);
        assert(is_link(classes, links[k - 1], links[k]));
        assert(k - 1 < chain.len() - 1);
        assert(is_link(classes, chain[k - 1], chain[k]));
    }
}

/// Links that come back to a class repeat themselves from there on.
proof fn lemma_links_repeat(classes: Seq<ClassView>, links: Seq<ClassView>, a: int, b: int, t: int)
    requires
        is_linked(classes, links),
        0 <= a < b,
        0 <= t,
        b + t < links.len(),
        links[a] == links[b],
    ensures
        links[a + t] == links[b + t],
    decreases t,
{
    if t > 0 {
        lemma_links_repeat(classes, links, a, b, t - 1);
        assert(is_link(classes, links[a + t - 1], links[a + t]));
        assert(is_link(classes, links[b + t - 1], links[b + t]));
    }
}

/// A class has at most one chain.
pub proof fn lemma_chain_unique(
    classes: Seq<ClassView>,
    start: ClassView,
    first: Seq<ClassView>,
    second: Seq<ClassView>,
)
    requires
        is_chain(classes, start, first),
        is_chain(classes, start, second),
    ensures
        first == second,
{
    lemma_chain_prefix(classes, first, second, first.len() - 1);
    lemma_chain_prefix(classes, second, first, second.len() - 1);
    assert forall|k: int| 0 <= k < first.len() implies first[k] == second[k] by {
        lemma_chain_prefix(classes, first, second, k);
    }
    assert(first =~= second);
}

/// The chain of a class that has one is its only chain.
pub proof fn lemma_chain_of(classes: Seq<ClassView>, start: ClassView, chain: Seq<ClassView>)
    requires
        is_chain(classes, start, chain),
    ensures
        has_chain(classes, start),
        chain_of(classes, start) == chain,
{
    lemma_chain_unique(classes, start, chain_of(classes, start), chain);
}

/// Where following the parents from a class leads back to a class already
/// met, the class has no chain.
proof fn lemma_cycle_has_no_chain(
    classes: Seq<ClassView>,
    start: ClassView,
    links: Seq<ClassView>,
    j: int,
)
    requires
        links.len() >= 1,
        links[0] == start,
        is_linked(classes, links),
        0 <= j < links.len(),
        is_link(classes, links.last(), links[j]),
    ensures
        !has_chain(classes, start),
{
    if has_chain(classes, start) {
        let chain = chain_of(classes, start);
        let n = links.len() as int;
        lemma_chain_prefix(classes, links, chain, n - 1);
        lemma_chain_prefix(classes, links, chain, j);
        assert(n - 1 < chain.len() - 1);
        assert(is_link(classes, chain[n - 1], chain[n]));
        assert(chain[n] == chain[j]);
        let t = chain.len() - 1 - n;
        lemma_links_repeat(classes, chain, j, n, t);
        assert(is_link(classes, chain[j + t], chain[j + t + 1]));
    }
}

/// Distinct numbers below `n` are at most `n` numbers.
proof fn lemma_distinct_below(s: Seq<int>, n: int)
    requires
        0 <= n,
        s.no_duplicates(),
        forall|i: int| 0 <= i < s.len() ==> 0 <= #[trigger] s[i] < n,
    ensures
        s.len() <= n,
{
    s.unique_seq_to_set();
    lemma_int_range(0, n);
    assert(s.to_set().subset_of(set_int_range(0, n)));
    lemma_len_subset(s.to_set(), set_int_range(0, n));
}

/// Whether `wanted` is among `seen`.
fn is_seen(seen: &Vec<usize>, wanted: usize) -> (r: Option<usize>)
    ensures
        match r {
            Some(k) => k < seen@.len() && seen@[k as int] == wanted,
            None => forall|k: int| 0 <= k < seen@.len() ==> seen@[k] != wanted,
        },
{
    let mut k: usize = 0;
    while k < seen.len()
        invariant
            k <= seen.len(),
            forall|i: int| 0 <= i < k ==> seen@[i] != wanted,
        decreases seen.len() - k,
    {
        if seen[k] == wanted {
            return Some(k);
        }
        k = k + 1;
    }
    None
}

impl JavaFile {
    /// The parent of the class among `objects`: the first class that has the
    /// name in `extends`.
    pub fn next(self, objects: &Vec<JavaFile>) -> (r: Option<&JavaFile>)
        ensures
            match r {
                Some(class) => match parent_of(classes_view(objects@), self@) {
                    Some(i) => 0 <= i < objects@.len() && *class == objects@[i],
                    None => false,
                },
                None => parent_of(classes_view(objects@), self@) is None,
            },
    {
        find_entry(self.extends.as_str(), objects)
    }

    /// The chain of the class among `objects`: the class, its parent, the
    /// parent of that, up to the first class whose parent is not known.
    ///
    /// Fails with `CompileError::CyclicChain` where the parents never come to
    /// an end, that is, where they lead back to a class already met.
    pub fn chain<'a>(&'a self, objects: &'a Vec<JavaFile>) -> (r: Result<
        Vec<&'a JavaFile>,
        CompileError,
    >)
        ensures
            match r {
                Ok(chain) => {
                    &&& has_chain(classes_view(objects@), self@)
                    &&& chain_view(chain@) == chain_of(classes_view(objects@), self@)
                    &&& is_chain(classes_view(objects@), self@, chain_view(chain@))
                    &&& *chain@[0] == *self
                    &&& forall|k: int|
                        0 < k < chain@.len() ==> is_parent(objects@, chain@[k - 1]@, #[trigger] chain@[k])
                },
                Err(error) => {
                    &&& error == CompileError::CyclicChain
                    &&& !has_chain(classes_view(objects@), self@)
                },
            },
    {
        let ghost classes = classes_view(objects@);
        let mut chain: Vec<&'a JavaFile> = Vec::new();
        chain.push(self);
        let mut seen: Vec<usize> = Vec::new();
        let mut after: &'a JavaFile = self;
        loop
            invariant
                classes == classes_view(objects@),
                chain@.len() == seen@.len() + 1,
                seen@.len() <= objects@.len(),
                chain_view(chain@)[0] == self@,
                *chain@[0] == *self,
                forall|k: int|
                    0 < k < chain@.len() ==> is_parent(objects@, chain@[k - 1]@, #[trigger] chain@[k]),
                after@ == chain_view(chain@).last(),
                is_linked(classes, chain_view(chain@)),
                forall|k: int|
                    0 <= k < seen@.len() ==> (#[trigger] seen@[k]) < objects@.len() && chain_view(
                        chain@,
                    )[k + 1] == classes[seen@[k] as int],
                forall|a: int, b: int| 0 <= a < b < seen@.len() ==> seen@[a] != seen@[b],
            decreases objects@.len() - seen@.len(),
        {
            let ghost links = chain_view(chain@);
            match find_index(after.extends.as_str(), objects) {
                None => {
                    proof {
                        lemma_chain_of(classes, self@, links);
                    }
                    return Ok(chain);
                },
                Some(p) => {
                    proof {
                        lemma_first_named_is_first(classes, after@.extends);
                    }
                    match is_seen(&seen, p) {
                        Some(k) => {
                            proof {
                                assert(links[k + 1] == classes[p as int]);
                                lemma_cycle_has_no_chain(classes, self@, links, k + 1);
                            }
                            return Err(CompileError::CyclicChain);
                        },
                        None => {},
                    }
                    seen.push(p);
                    chain.push(&objects[p]);
                    after = &objects[p];
                    proof {
                        let now = chain_view(chain@);
                        assert(now =~= links.push(classes[p as int]));
                        assert forall|k: int| 0 <= k < now.len() - 1 implies is_link(
                            classes,
                            #[trigger] now[k],
                            now[k + 1],
                        ) by {
                            if k < links.len() - 1 {
                                assert(is_link(classes, links[k], links[k + 1]));
                            }
                        }
                        let numbers = Seq::new(seen@.len(), |i: int| seen@[i] as int);
                        lemma_distinct_below(numbers, objects@.len() as int);
                    }
                },
            }
        }
    }

    /// The value of the integer field `name`, if the class has that field.
    pub fn int_field(&self, name: &str) -> (r: Option<i32>)
        ensures
            r == (if self@.int_fields.contains_key(name@) {
                Some(self@.int_fields[name@])
            } else {
                None
            }),
    {
        let wanted = name.to_owned();
        let mut i: usize = self.int_fields.len();
        while i > 0
            invariant
                i <= self.int_fields.len(),
                wanted@ == name@,
                forall|j: int|
                    i <= j < self.int_fields.len() ==> (#[trigger] self.int_fields@[j]).0@ != name@,
            decreases i,
        {
            i = i - 1;
            if self.int_fields[i].0 == wanted {
                proof {
                    lemma_int_field_last(self.int_fields@, name@, i as int);
                }
                return Some(self.int_fields[i].1);
            }
        }
        proof {
            lemma_int_field_absent(self.int_fields@, name@);
        }
        None
    }

    /// The value of the string field `name`, if the class has that field.
    pub fn str_field(&self, name: &str) -> (r: Option<&String>)
        ensures
            match r {
                Some(value) => self@.str_fields.contains_key(name@) && value@
                    == self@.str_fields[name@],
                None => !self@.str_fields.contains_key(name@),
            },
    {
        let wanted = name.to_owned();
        let mut i: usize = self.str_fields.len();
        while i > 0
            invariant
                i <= self.str_fields.len(),
                wanted@ == name@,
                forall|j: int|
                    i <= j < self.str_fields.len() ==> (#[trigger] self.str_fields@[j]).0@ != name@,
            decreases i,
        {
            i = i - 1;
            if self.str_fields[i].0 == wanted {
                proof {
                    lemma_str_field_last(self.str_fields@, name@, i as int);
                }
                return Some(&self.str_fields[i].1);
            }
        }
        proof {
            lemma_str_field_absent(self.str_fields@, name@);
        }
        None
    }
}

/// The index of the first class of `objects` with the name `name`.
pub fn find_index(name: &str, objects: &Vec<JavaFile>) -> (r: Option<usize>)
    ensures
        match r {
            Some(i) => first_named(classes_view(objects@), name@) == Some(i as int),
            None => first_named(classes_view(objects@), name@) is None,
        },
{
    let wanted = name.to_owned();
    let mut i: usize = 0;
    while i < objects.len()
        invariant
            i <= objects.len(),
            wanted@ == name@,
            forall|j: int| 0 <= j < i ==> (#[trigger] classes_view(objects@)[j]).name != name@,
        decreases objects.len() - i,
    {
        if objects[i].name == wanted {
            proof {
                lemma_first_named(classes_view(objects@), name@, i as int);
            }
            return Some(i);
        }
        i = i + 1;
    }
    proof {
        lemma_none_named(classes_view(objects@), name@);
    }
    None
}

/// The first class of `objects` with the name `name`.
pub fn find_entry<'a>(name: &str, objects: &'a Vec<JavaFile>) -> (r: Option<&'a JavaFile>)
    ensures
        match r {
            Some(class) => match first_named(classes_view(objects@), name@) {
                Some(i) => 0 <= i < objects@.len() && *class == objects@[i],
                None => false,
            },
            None => first_named(classes_view(objects@), name@) is None,
        },
{
    match find_index(name, objects) {
        Some(i) => {
            proof {
                lemma_first_named_is_first(classes_view(objects@), name@);
            }
            Some(&objects[i])
        },
        None => None,
    }
}

} // verus!
