//! Finding the weight files that a sharded checkpoint is made of.
//!
//! A sharded checkpoint comes with an index: a JSON document whose member
//! `weight_map` names, for every tensor, the file that holds it. The files of
//! the checkpoint are the names that occur there, each one once.

use vstd::prelude::*;

verus! {

/// A JSON document. A number is kept as the text that stands for it.
#[derive(Debug, PartialEq, Eq)]
pub enum Json {
    Null,
    Bool(bool),
    Number(String),
    Text(String),
    List(Vec<Json>),
    Object(Vec<(String, Json)>),
}

/// Why an index names no weight files.
#[derive(Clone, Copy, Debug, PartialEq, Eq, Structural)]
pub enum LoadError {
    /// The index has no member `weight_map`.
    NoWeightMap,
    /// The member `weight_map` is no object.
    WeightMapNotAMap,
}

/// The name of the member that maps tensors to files.
pub const WEIGHT_MAP: &'static str = "weight_map";

/// The first member of an object that goes by the name `key`.
pub open spec fn member_of(members: Seq<(String, Json)>, key: Seq<char>) -> Option<Json>
    decreases members.len(),
{
    if members.len() == 0 {
        None
    } else if members.first().0@ == key {
        Some(members.first().1)
    } else {
        member_of(members.drop_first(), key)
    }
}

/// The texts among the values of an object, in the order of its members,
/// each text at the place where it occurs first.
pub open spec fn distinct_texts(members: Seq<(String, Json)>) -> Seq<Seq<char>>
    decreases members.len(),
{
    if members.len() == 0 {
        Seq::empty()
    } else {
        let before = distinct_texts(members.drop_last());
        match members.last().1 {
            Json::Text(text) => if before.contains(text@) {
                before
            } else {
                before.push(text@)
            },
            _ => before,
        }
    }
}

/// The names of the given files, one after the other.
pub open spec fn names_of(files: Seq<String>) -> Seq<Seq<char>> {
    Seq::new(files.len(), |i: int| files[i]@)
}

impl Json {
    /// What a document holds under `key`: the first member of that name if
    /// the document is an object, and nothing otherwise.
    pub open spec fn member(&self, key: Seq<char>) -> Option<Json> {
        match self {
            Json::Object(members) => member_of(members@, key),
            _ => None,
        }
    }

    /// What the document holds under `key`.
    pub fn get(&self, key: &str) -> (value: Option<&Json>)
        ensures
            match value {
                Some(found) => self.member(key@) == Some(*found),
                None => self.member(key@) is None,
            },
    {
        match self {
            Json::Object(members) => {
                let wanted = key.to_owned();
                let mut i: usize = 0;
                assert(members@.skip(0) == members@);
                while i < members.len()
                    invariant
                        i <= members.len(),
                        wanted@ == key@,
                        self.member(key@) == member_of(members@, key@),
                        member_of(members@, key@) == member_of(members@.skip(i as int), key@),
                    decreases members.len() - i,
                {
                    let ghost rest = members@.skip(i as int);
                    assert(rest.first() == members@[i as int]);
                    assert(rest.drop_first() == members@.skip(i + 1));
                    if members[i].0 == wanted {
                        return Some(&members[i].1);
                    }
                    i = i + 1;
                }
                None
            },
            _ => None,
        }
    }
}

/// The weight files that an index names: the texts among the values of its
/// `weight_map`, each once, in the order in which they occur first.
pub fn hub_load_local_safetensors(index: &Json) -> (r: Result<Vec<String>, LoadError>)
    ensures
        match index.member(WEIGHT_MAP@) {
            None => r == Err::<Vec<String>, LoadError>(LoadError::NoWeightMap),
            Some(Json::Object(map)) => r is Ok && names_of(r->Ok_0@) == distinct_texts(map@),
            Some(_) => r == Err::<Vec<String>, LoadError>(LoadError::WeightMapNotAMap),
        },
{
    let map = match index.get(WEIGHT_MAP) {
        None => {
            return Err(LoadError::NoWeightMap);
        },
        Some(Json::Object(map)) => map,
        Some(_) => {
            return Err(LoadError::WeightMapNotAMap);
        },
    };
    let mut files: Vec<String> = Vec::new();
    let mut i: usize = 0;
    assert(map@.take(0) == Seq::<(String, Json)>::empty());
    assert(names_of(files@) == distinct_texts(map@.take(0)));
    while i < map.len()
        invariant
            i <= map.len(),
            names_of(files@) == distinct_texts(map@.take(i as int)),
        decreases map.len() - i,
    {
        assert(map@.take(i + 1).drop_last() == map@.take(i as int));
        assert(map@.take(i + 1).last() == map@[i as int]);
        if let Json::Text(name) = &map[i].1 {
            if !holds(&files, name) {
                let ghost before = files@;
                files.push(name.clone());
                assert(names_of(files@) == names_of(before).push(name@));
            }
        }
        i = i + 1;
    }
    assert(map@.take(i as int) == map@);
    Ok(files)
}

/// Whether a name is among the files.
fn holds(files: &Vec<String>, name: &String) -> (found: bool)
    ensures
        found == names_of(files@).contains(name@),
{
    let mut k: usize = 0;
    while k < files.len()
        invariant
            k <= files.len(),
            forall|j: int| 0 <= j < k ==> names_of(files@)[j] != name@,
        decreases files.len() - k,
    {
        if files[k] == *name {
            assert(names_of(files@)[k as int] == name@);
            return true;
        }
        k = k + 1;
    }
    false
}

/// Whether a value is the text `name`.
pub open spec fn is_text(value: Json, name: Seq<char>) -> bool {
    value matches Json::Text(text) && text@ == name
}

/// Of the files that an index names none occurs twice, and a name is among
/// them exactly if it is the text of some value of the map.
pub proof fn lemma_distinct_texts(members: Seq<(String, Json)>)
    ensures
        distinct_texts(members).no_duplicates(),
        forall|name: Seq<char>|
            distinct_texts(members).contains(name) <==> exists|k: int|
                0 <= k < members.len() && is_text((#[trigger] members[k]).1, name),
    decreases members.len(),
{
    let all = distinct_texts(members);
    if members.len() > 0 {
        let shorter = members.drop_last();
        let before = distinct_texts(shorter);
        lemma_distinct_texts(shorter);
        assert forall|name: Seq<char>| all.contains(name) implies exists|k: int|
            0 <= k < members.len() && is_text((#[trigger] members[k]).1, name) by {
            if before.contains(name) {
                let k = choose|k: int|
                    0 <= k < shorter.len() && is_text((#[trigger] shorter[k]).1, name);
                assert(members[k] == shorter[k]);
            } else {
                let at = choose|at: int| 0 <= at < all.len() && all[at] == name;
                assert(at == before.len());
                assert(is_text(members[members.len() - 1].1, name));
            }
        }
        assert forall|name: Seq<char>|
            (exists|k: int|
                0 <= k < members.len() && is_text((#[trigger] members[k]).1, name))
                implies all.contains(name) by {
            let k = choose|k: int|
                0 <= k < members.len() && is_text((#[trigger] members[k]).1, name);
            if k < shorter.len() {
                assert(shorter[k] == members[k]);
                assert(before.contains(name));
                let at = choose|at: int| 0 <= at < before.len() && before[at] == name;
                assert(all[at] == name);
            } else {
                if before.contains(name) {
                    let at = choose|at: int| 0 <= at < before.len() && before[at] == name;
                    assert(all[at] == name);
                } else {
                    assert(all[before.len() as int] == name);
                }
            }
        }
    }
}

} // verus!
