//! Named colors, each name registered at most once.
use vstd::prelude::*;

use crate::color::Rgba;

verus! {

/// Whether two strings hold the same characters.
fn same_text(a: &str, b: &str) -> (r: bool)
    ensures
        r == (a@ == b@),
{
    let n = a.unicode_len();
    if n != b.unicode_len() {
        return false;
    }
    let mut i: usize = 0;
    while i < n
        invariant
            n == a@.len(),
            n == b@.len(),
            i <= n,
            forall|j: int| 0 <= j < i ==> a@[j] == b@[j],
        decreases n - i,
    {
        if a.get_char(i) != b.get_char(i) {
            return false;
        }
        i = i + 1;
    }
    proof {
        assert(a@ =~= b@);
    }
    true
}

/// A map from color names to colors.
pub struct ColorPalette {
    entries: Vec<(String, Rgba)>,
}

impl ColorPalette {
    /// No name occurs twice.
    pub closed spec fn wf(&self) -> bool {
        forall|i: int, j: int|
            0 <= i < j < self.entries@.len() ==> self.entries@[i].0@ != self.entries@[j].0@
    }

    /// The names and their colors.
    pub closed spec fn view(&self) -> Map<Seq<char>, Rgba> {
        Map::new(
            |k: Seq<char>| exists|i: int| 0 <= i < self.entries@.len() && self.entries@[i].0@ == k,
            |k: Seq<char>|
                self.entries@[choose|i: int| 0 <= i < self.entries@.len() && self.entries@[i].0@ == k].1,
        )
    }

    pub fn new() -> (p: ColorPalette)
        ensures
            p.wf(),
            p.view() == Map::<Seq<char>, Rgba>::empty(),
    {
        let p = ColorPalette { entries: Vec::new() };
        proof {
            assert(p.view() =~= Map::<Seq<char>, Rgba>::empty());
        }
        p
    }

    /// Position of the entry named `name`, if any.
    fn find(&self, name: &str) -> (r: Option<usize>)
        requires
            self.wf(),
        ensures
            match r {
                Some(i) => i < self.entries@.len() && self.entries@[i as int].0@ == name@,
                None => forall|i: int| 0 <= i < self.entries@.len() ==> self.entries@[i].0@ != name@,
            },
    {
        let mut i: usize = 0;
        while i < self.entries.len()
            invariant
                i <= self.entries@.len(),
                forall|j: int| 0 <= j < i ==> self.entries@[j].0@ != name@,
            decreases self.entries@.len() - i,
        {
            if same_text(self.entries[i].0.as_str(), name) {
                return Some(i);
            }
            i = i + 1;
        }
        None
    }

    /// Registers `color` under `name`, replacing a color registered before.
    pub fn insert(&mut self, name: &str, color: Rgba)
        requires
            old(self).wf(),
        ensures
            final(self).wf(),
            final(self).view() == old(self).view().insert(name@, color),
    {
        let ghost before = self.view();
        let ghost mut pos: int = 0;
        match self.find(name) {
            Some(i) => {
                let key = self.entries[i].0.clone();
                proof {
                    assert(key@ == name@);
                }
                self.entries.set(i, (key, color));
                proof {
                    pos = i as int;
                }
            },
            None => {
                self.entries.push((name.to_string(), color));
                proof {
                    pos = self.entries@.len() - 1;
                }
            },
        }
        proof {
            let after = self.view();
            assert(self.entries@[pos].0@ == name@);
            assert forall|k: Seq<char>| #[trigger] after.contains_key(k) == before.insert(name@, color).contains_key(k) by {
                if k != name@ && before.contains_key(k) {
                    let i = choose|i: int| 0 <= i < old(self).entries@.len() && old(self).entries@[i].0@ == k;
                    assert(self.entries@[i].0@ == k);
                }
                if after.contains_key(k) && k != name@ {
                    let i = choose|i: int| 0 <= i < self.entries@.len() && self.entries@[i].0@ == k;
                    assert(old(self).entries@[i].0@ == k);
                }
            }
            assert forall|k: Seq<char>| #[trigger] after.contains_key(k) implies after[k] == before.insert(name@, color)[k] by {
                let i = choose|i: int| 0 <= i < self.entries@.len() && self.entries@[i].0@ == k;
                if k != name@ {
                    let j = choose|j: int| 0 <= j < old(self).entries@.len() && old(self).entries@[j].0@ == k;
                    assert(self.entries@[j].0@ == k);
                    assert(i == j);
                }
            }
            assert(after =~= before.insert(name@, color));
        }
    }

    /// The color registered under `name`, if one is.
    pub fn get(&self, name: &str) -> (r: Option<Rgba>)
        requires
            self.wf(),
        ensures
            r == (if self.view().contains_key(name@) {
                Some(self.view()[name@])
            } else {
                None
            }),
    {
        match self.find(name) {
            Some(i) => {
                proof {
                    let j = choose|j: int| 0 <= j < self.entries@.len() && self.entries@[j].0@ == name@;
                    assert(j == i);
                }
                Some(self.entries[i].1)
            },
            None => None,
        }
    }
}

} // verus!
