//! A set of application (package) names.
use vstd::prelude::*;

verus! {

/// A set of application names: each name is held once.
#[derive(Debug)]
pub struct AppList {
    apps: Vec<String>,
}

/// The names of a list of strings.
pub open spec fn names(v: Seq<String>) -> Seq<Seq<char>> {
    v.map_values(|s: String| s@)
}

impl AppList {
    /// The names, in the order in which they were first inserted.
    pub closed spec fn items(&self) -> Seq<Seq<char>> {
        names(self.apps@)
    }

    #[verifier::type_invariant]
    spec fn inv(&self) -> bool {
        self.items().no_duplicates()
    }

    /// An empty set.
    pub fn new() -> (r: AppList)
        ensures
            r@ == Set::<Seq<char>>::empty(),
            r.items() == Seq::<Seq<char>>::empty(),
    {
        let r = AppList { apps: Vec::new() };
        assert(r.items() =~= Seq::<Seq<char>>::empty());
        r
    }

    /// Number of names in the set.
    pub fn len(&self) -> (r: usize)
        ensures
            r == self.items().len(),
            r == self@.len(),
            self.items().no_duplicates(),
    {
        proof {
            use_type_invariant(self);
            self.items().unique_seq_to_set();
        }
        self.apps.len()
    }

    /// Whether the set is empty.
    pub fn is_empty(&self) -> (r: bool)
        ensures
            r == (self@.len() == 0),
            r == (self@ == Set::<Seq<char>>::empty()),
    {
        let n = self.len();
        proof {
            if n > 0 {
                assert(self@.contains(self.items()[0]));
            } else {
                assert(self@ =~= Set::<Seq<char>>::empty());
            }
        }
        n == 0
    }

    /// The name at position `i` of `items()`.
    pub fn get(&self, i: usize) -> (r: &String)
        requires
            i < self.items().len(),
        ensures
            r@ == self.items()[i as int],
    {
        &self.apps[i]
    }

    /// Whether `app` is in the set.
    pub fn contains(&self, app: &str) -> (r: bool)
        ensures
            r == self@.contains(app@),
    {
        let key = app.to_owned();
        list_contains(&self.apps, &key)
    }

    /// Adds `app`; true when it was not in the set before.
    pub fn insert(&mut self, app: String) -> (r: bool)
        ensures
            final(self)@ == old(self)@.insert(app@),
            r == !old(self)@.contains(app@),
            r ==> final(self).items() == old(self).items().push(app@),
            !r ==> final(self).items() == old(self).items(),
    {
        proof {
            use_type_invariant(&*self);
        }
        if list_contains(&self.apps, &app) {
            false
        } else {
            let ghost old_items = self.items();
            let ghost a = app@;
            let mut apps: Vec<String> = Vec::new();
            std::mem::swap(&mut apps, &mut self.apps);
            apps.push(app);
            proof {
                assert(names(apps@) =~= old_items.push(a));
                old_items.lemma_push_to_set_commute(a);
            }
            self.apps = apps;
            true
        }
    }

    /// A set of the names in `v`; repeated names are kept once.
    pub fn from_vec(v: Vec<String>) -> (r: AppList)
        ensures
            r@ == names(v@).to_set(),
    {
        let mut r = AppList::new();
        let n = v.len();
        let mut i: usize = 0;
        while i < n
            invariant
                n == v.len(),
                i <= n,
                r@ == names(v@).take(i as int).to_set(),
            decreases n - i,
        {
            let ghost before = r@;
            r.insert(v[i].clone());
            proof {
                assert(names(v@).take(i + 1) =~= names(v@).take(i as int).push(v@[i as int]@));
                names(v@).take(i as int).lemma_push_to_set_commute(v@[i as int]@);
            }
            i = i + 1;
        }
        assert(names(v@).take(n as int) =~= names(v@));
        r
    }

    /// The names, each once, in `items()` order.
    pub fn to_vec(&self) -> (r: Vec<String>)
        ensures
            names(r@) == self.items(),
            names(r@).to_set() == self@,
            names(r@).no_duplicates(),
    {
        proof {
            use_type_invariant(self);
        }
        self.apps.clone()
    }
}

impl Clone for AppList {
    fn clone(&self) -> (r: AppList)
        ensures
            r.items() == self.items(),
    {
        proof {
            use_type_invariant(self);
        }
        let apps = self.apps.clone();
        assert(names(apps@) =~= self.items());
        AppList { apps }
    }
}

impl View for AppList {
    type V = Set<Seq<char>>;

    open spec fn view(&self) -> Set<Seq<char>> {
        self.items().to_set()
    }
}

/// Whether a string with the text of `app` is in `list`.
pub fn list_contains(list: &Vec<String>, app: &String) -> (r: bool)
    ensures
        r == names(list@).contains(app@),
{
    let n = list.len();
    let mut i: usize = 0;
    while i < n
        invariant
            n == list.len(),
            i <= n,
            forall|k: int| 0 <= k < i ==> list@[k]@ != app@,
        decreases n - i,
    {
        if list[i] == *app {
            assert(names(list@)[i as int] == app@);
            return true;
        }
        i = i + 1;
    }
    assert forall|k: int| 0 <= k < names(list@).len() implies names(list@)[k] != app@ by {
        assert(names(list@)[k] == list@[k]@);
    }
    false
}

} // verus!
