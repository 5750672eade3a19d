use vstd::prelude::*;
use crate::nodes::Node;

verus! {

/// An unevaluated rule body: it is interpreted anew each time the rule is
/// referenced.
pub struct Lazy {
    pub fun: Box<Node>,
}

/// The binding table: rule names with their bodies, in the order they were
/// set. A later entry for a name hides the earlier ones.
pub struct Context {
    pub symbols: Vec<(String, Lazy)>,
}

/// The name-to-body map that a list of bindings stands for.
pub open spec fn table(s: Seq<(String, Lazy)>) -> Map<Seq<char>, Node>
    decreases s.len(),
{
    if s.len() == 0 {
        Map::empty()
    } else {
        table(s.drop_last()).insert(s.last().0@, *s.last().1.fun)
    }
}

impl View for Context {
    type V = Map<Seq<char>, Node>;

    open spec fn view(&self) -> Map<Seq<char>, Node> {
        table(self.symbols@)
    }
}

impl Context {
    pub fn new() -> (r: Context)
        ensures
            r@ == Map::<Seq<char>, Node>::empty(),
    {
        Context { symbols: Vec::new() }
    }

    /// The body bound to `name`, if any.
    pub fn get(&self, name: String) -> (r: Option<&Lazy>)
        ensures
            match r {
                Some(l) => self@.contains_key(name@) && self@[name@] == *l.fun,
                None => !self@.contains_key(name@),
            },
    {
        let mut i = self.symbols.len();
        assert(self.symbols@.subrange(0, i as int) =~= self.symbols@);
        while i > 0
            invariant
                i <= self.symbols@.len(),
                table(self.symbols@).contains_key(name@) == table(
                    self.symbols@.subrange(0, i as int),
                ).contains_key(name@),
                table(self.symbols@).contains_key(name@) ==> table(self.symbols@)[name@] == table(
                    self.symbols@.subrange(0, i as int),
                )[name@],
            decreases i,
        {
            let ghost s = self.symbols@.subrange(0, i as int);
            assert(s.drop_last() =~= self.symbols@.subrange(0, i - 1));
            assert(table(s) == table(s.drop_last()).insert(s.last().0@, *s.last().1.fun));
            if self.symbols[i - 1].0 == name {
                return Some(&self.symbols[i - 1].1);
            }
            i = i - 1;
        }
        assert(self.symbols@.subrange(0, 0) =~= Seq::<(String, Lazy)>::empty());
        None
    }

    /// Binds `name` to `thunk`, hiding any earlier binding of the name.
    pub fn set(&mut self, name: String, thunk: Lazy)
        ensures
            final(self)@ == old(self)@.insert(name@, *thunk.fun),
    {
        self.symbols.push((name, thunk));
        assert(final(self).symbols@.drop_last() =~= old(self).symbols@);
    }
}

} // verus!
