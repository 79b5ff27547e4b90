use crate::args::{no_args, ArgModel, Args};
use crate::store::texts_view;
use vstd::prelude::*;

verus! {

/// A request to format a message: its id, the arguments of its value, and
/// arguments for some of its attributes, keyed by attribute name.
pub struct Query {
    id: String,
    args: Args,
    attr_args: Vec<(String, Args)>,
    with_fallback: bool,
}

impl Query {
    /// The id of the requested message.
    pub closed spec fn id_string(&self) -> String {
        self.id
    }

    /// The arguments for the message's value.
    pub closed spec fn main_args(&self) -> Map<Seq<char>, ArgModel> {
        self.args@
    }

    /// The attribute names that carry explicit arguments, in the order they were first given.
    pub closed spec fn attr_keys(&self) -> Seq<String> {
        self.attr_args@.map_values(|p: (String, Args)| p.0)
    }

    /// The explicit arguments of each attribute name of `attr_keys`, at the same index.
    pub closed spec fn attr_maps(&self) -> Seq<Map<Seq<char>, ArgModel>> {
        self.attr_args@.map_values(|p: (String, Args)| p.1@)
    }

    /// Whether the fallback flag is set.
    pub closed spec fn fallback_enabled(&self) -> bool {
        self.with_fallback
    }

    /// No attribute name carries explicit arguments twice.
    pub open spec fn wf(&self) -> bool {
        &&& self.attr_maps().len() == self.attr_keys().len()
        &&& forall|i: int, j: int|
            0 <= i < j < self.attr_keys().len() ==> (#[trigger] self.attr_keys()[i])@ != (#[trigger] self.attr_keys()[j])@
    }

    /// Whether attribute `attr` carries explicit arguments.
    pub open spec fn has_attr_args(&self, attr: Seq<char>) -> bool {
        exists|i: int| 0 <= i < self.attr_keys().len() && (#[trigger] self.attr_keys()[i])@ == attr
    }

    /// The explicit arguments of attribute `attr`, if it carries any.
    pub open spec fn explicit_args(&self, attr: Seq<char>) -> Option<Map<Seq<char>, ArgModel>> {
        if self.has_attr_args(attr) {
            let i = choose|i: int| 0 <= i < self.attr_keys().len() && (#[trigger] self.attr_keys()[i])@ == attr;
            Some(self.attr_maps()[i])
        } else {
            None
        }
    }

    /// A query for message `id`, with no arguments.
    pub fn new(id: &str) -> (r: Query)
        ensures
            r.wf(),
            r.id_string()@ == id@,
            r.main_args() == no_args(),
            r.attr_keys().len() == 0,
            !r.fallback_enabled(),
    {
        let r = Query { id: String::from_str(id), args: Args::new(), attr_args: Vec::new(), with_fallback: false };
        proof {
            assert(r.attr_keys().len() == 0);
        }
        r
    }

    /// Adds a text argument for the message's value.
    pub fn with_arg(self, id: &str, value: &str) -> (r: Query)
        requires
            self.wf(),
        ensures
            r.wf(),
            r.id_string() == self.id_string(),
            r.main_args() == self.main_args().insert(id@, ArgModel::Text(value@)),
            r.attr_keys() == self.attr_keys(),
            r.attr_maps() == self.attr_maps(),
            r.fallback_enabled() == self.fallback_enabled(),
    {
        let mut r = self;
        r.args.set(id, value);
        r
    }

    /// Adds a numeric argument, of at most 2^53 in magnitude, for the message's value.
    pub fn with_number_arg(self, id: &str, value: i64) -> (r: Query)
        requires
            self.wf(),
            -crate::args::MAX_EXACT_INTEGER <= value <= crate::args::MAX_EXACT_INTEGER,
        ensures
            r.wf(),
            r.id_string() == self.id_string(),
            r.main_args() == self.main_args().insert(id@, ArgModel::Number(value as int)),
            r.attr_keys() == self.attr_keys(),
            r.attr_maps() == self.attr_maps(),
            r.fallback_enabled() == self.fallback_enabled(),
    {
        let mut r = self;
        r.args.set_number(id, value);
        r
    }

    /// Adds a text argument for attribute `attr` of the message.
    pub fn with_attr_arg(self, attr: &str, id: &str, value: &str) -> (r: Query)
        requires
            self.wf(),
        ensures
            r.wf(),
            r.id_string() == self.id_string(),
            r.main_args() == self.main_args(),
            r.fallback_enabled() == self.fallback_enabled(),
            r.explicit_args(attr@) == Some(
                match self.explicit_args(attr@) {
                    Some(m) => m,
                    None => no_args(),
                }.insert(id@, ArgModel::Text(value@)),
            ),
            forall|n: Seq<char>| n != attr@ ==> r.explicit_args(n) == self.explicit_args(n),
            self.has_attr_args(attr@) ==> r.attr_keys() == self.attr_keys(),
            !self.has_attr_args(attr@) ==> r.attr_keys().len() == self.attr_keys().len() + 1
                && r.attr_keys().take(self.attr_keys().len() as int) == self.attr_keys()
                && r.attr_keys().last()@ == attr@,
    {
        let mut r = self;
        match r.find_attr(attr) {
            Some(i) => {
                let ghost before = r.attr_args@;
                let (key, mut entry) = r.attr_args.remove(i);
                entry.set(id, value);
                r.attr_args.insert(i, (key, entry));
                proof {
                    assert(r.attr_keys() =~= self.attr_keys());
                    assert forall|j: int| 0 <= j < r.attr_maps().len() && j != i implies #[trigger] r.attr_maps()[j] == self.attr_maps()[j] by {
                        assert(r.attr_args@[j] == before[j]);
                    }
                    self.lemma_explicit_at(i as int);
                    r.lemma_explicit_at(i as int);
                    assert forall|n: Seq<char>| n != attr@ implies r.explicit_args(n) == self.explicit_args(n) by {
                        if self.has_attr_args(n) {
                            let j = choose|j: int| 0 <= j < self.attr_keys().len() && (#[trigger] self.attr_keys()[j])@ == n;
                            self.lemma_explicit_at(j);
                            r.lemma_explicit_at(j);
                        }
                    }
                }
            },
            None => {
                let mut entry = Args::new();
                entry.set(id, value);
                let ghost before = r.attr_args@;
                r.attr_args.push((String::from_str(attr), entry));
                proof {
                    assert(r.attr_keys().take(self.attr_keys().len() as int) =~= self.attr_keys());
                    let last = self.attr_keys().len() as int;
                    assert(r.attr_keys()[last]@ == attr@);
                    assert forall|i: int, j: int| 0 <= i < j < r.attr_keys().len() implies (#[trigger] r.attr_keys()[i])@ != (#[trigger] r.attr_keys()[j])@ by {
                        if j == last {
                            assert(r.attr_keys()[i] == self.attr_keys()[i]);
                        } else {
                            assert(r.attr_keys()[i] == self.attr_keys()[i]);
                            assert(r.attr_keys()[j] == self.attr_keys()[j]);
                        }
                    }
                    r.lemma_explicit_at(last);
                    assert forall|n: Seq<char>| n != attr@ implies r.explicit_args(n) == self.explicit_args(n) by {
                        if self.has_attr_args(n) {
                            let j = choose|j: int| 0 <= j < self.attr_keys().len() && (#[trigger] self.attr_keys()[j])@ == n;
                            self.lemma_explicit_at(j);
                            assert(r.attr_keys()[j] == self.attr_keys()[j]);
                            assert(r.attr_maps()[j] == self.attr_maps()[j]);
                            r.lemma_explicit_at(j);
                        } else {
                            if r.has_attr_args(n) {
                                let j = choose|j: int| 0 <= j < r.attr_keys().len() && (#[trigger] r.attr_keys()[j])@ == n;
                                assert(r.attr_keys()[j] == self.attr_keys()[j]);
                            }
                        }
                    }
                }
            },
        }
        r
    }

    /// Sets whether this query may use the fallback language.
    pub fn with_fallback(self, enable_fallback: bool) -> (r: Query)
        ensures
            r.id_string() == self.id_string(),
            r.main_args() == self.main_args(),
            r.attr_keys() == self.attr_keys(),
            r.attr_maps() == self.attr_maps(),
            r.fallback_enabled() == enable_fallback,
    {
        let mut r = self;
        r.with_fallback = enable_fallback;
        r
    }

    /// Under `wf`, the explicit arguments of the name at index `i` are those stored at `i`.
    proof fn lemma_explicit_at(&self, i: int)
        requires
            self.wf(),
            0 <= i < self.attr_keys().len(),
        ensures
            self.has_attr_args(self.attr_keys()[i]@),
            self.explicit_args(self.attr_keys()[i]@) == Some(self.attr_maps()[i]),
    {
        let n = self.attr_keys()[i]@;
        assert(self.has_attr_args(n));
        let j = choose|j: int| 0 <= j < self.attr_keys().len() && (#[trigger] self.attr_keys()[j])@ == n;
        if j != i {
            if j < i {
                assert(self.attr_keys()[j]@ != self.attr_keys()[i]@);
            } else {
                assert(self.attr_keys()[i]@ != self.attr_keys()[j]@);
            }
        }
    }

    /// The id of the requested message.
    pub fn id(&self) -> (r: &String)
        ensures
            *r == self.id_string(),
    {
        &self.id
    }

    /// The arguments for the message's value.
    pub fn args(&self) -> (r: &Args)
        ensures
            r@ == self.main_args(),
    {
        &self.args
    }

    /// How many attribute names carry explicit arguments.
    pub fn attr_arg_count(&self) -> (r: usize)
        ensures
            r == self.attr_keys().len(),
    {
        self.attr_args.len()
    }

    /// The attribute name at index `i` among those with explicit arguments.
    pub fn attr_arg_name(&self, i: usize) -> (r: &String)
        requires
            i < self.attr_keys().len(),
        ensures
            *r == self.attr_keys()[i as int],
    {
        &self.attr_args[i].0
    }

    /// The explicit arguments of attribute `attr`, if it carries any.
    pub fn attr_args_for(&self, attr: &str) -> (r: Option<&Args>)
        requires
            self.wf(),
        ensures
            r matches Some(a) ==> self.explicit_args(attr@) == Some(a@),
            r is None ==> self.explicit_args(attr@) is None,
    {
        match self.find_attr(attr) {
            Some(i) => {
                proof {
                    self.lemma_explicit_at(i as int);
                }
                Some(&self.attr_args[i].1)
            },
            None => None,
        }
    }

    /// The index of the attribute name `attr` among those with explicit arguments.
    fn find_attr(&self, attr: &str) -> (r: Option<usize>)
        ensures
            r matches Some(i) ==> i < self.attr_keys().len() && self.attr_keys()[i as int]@ == attr@,
            r is None ==> !self.has_attr_args(attr@),
    {
        let key = String::from_str(attr);
        let mut i: usize = 0;
        while i < self.attr_args.len()
            invariant
                i <= self.attr_args@.len(),
                key@ == attr@,
                forall|j: int| 0 <= j < i ==> (#[trigger] self.attr_keys()[j])@ != attr@,
            decreases self.attr_args@.len() - i,
        {
            let same = self.attr_args[i].0.eq(&key);
            proof {
                assert(self.attr_keys().len() == self.attr_args@.len());
                assert(self.attr_keys()[i as int] == self.attr_args@[i as int].0);
                assert(same == (self.attr_keys()[i as int]@ == attr@));
            }
            if same {
                return Some(i);
            }
            i = i + 1;
        }
        None
    }
}

} // verus!
