//! The environment store: the ordered list of `name=value` bindings a
//! pipeline run produces, and the rendering of that list as the text of the
//! environment file.
//!
//! The store is a model of the file the surrounding binary writes: `reset`
//! empties it, `append` adds one binding at the end, and `render` yields the
//! exact file text. Nothing is deduplicated or validated; re-binding a name
//! appends a second line, and the shell sourcing the file lets the last one
//! win.

use vstd::prelude::*;

verus! {

/// One `name=value` pair destined for the environment file.
#[derive(Clone, Debug, PartialEq, Eq)]
pub struct Binding {
    pub name: String,
    pub value: String,
}

impl View for Binding {
    type V = (Seq<char>, Seq<char>);

    open spec fn view(&self) -> (Seq<char>, Seq<char>) {
        (self.name@, self.value@)
    }
}

/// The views of a list of bindings.
pub open spec fn binding_views(bs: Seq<Binding>) -> Seq<(Seq<char>, Seq<char>)> {
    bs.map_values(|b: Binding| b@)
}

/// The one line a binding contributes to the environment file.
pub open spec fn line_of(name: Seq<char>, value: Seq<char>) -> Seq<char> {
    name + "="@ + value + "\n"@
}

/// The full text of the environment file holding the bindings `bs`, in order.
pub open spec fn render_store(bs: Seq<(Seq<char>, Seq<char>)>) -> Seq<char>
    decreases bs.len(),
{
    if bs.len() == 0 {
        Seq::empty()
    } else {
        line_of(bs[0].0, bs[0].1) + render_store(bs.skip(1))
    }
}

/// Appending one binding appends exactly its line to the rendered text.
pub proof fn lemma_render_store_push(bs: Seq<(Seq<char>, Seq<char>)>, b: (Seq<char>, Seq<char>))
    ensures
        render_store(bs.push(b)) == render_store(bs) + line_of(b.0, b.1),
    decreases bs.len(),
{
    if bs.len() == 0 {
        assert(bs.push(b)[0] == b);
        assert(bs.push(b).skip(1) =~= Seq::<(Seq<char>, Seq<char>)>::empty());
        assert(render_store(bs.push(b)) == line_of(b.0, b.1) + render_store(
            Seq::<(Seq<char>, Seq<char>)>::empty(),
        ));
        assert(render_store(bs.push(b)) =~= render_store(bs) + line_of(b.0, b.1));
    } else {
        lemma_render_store_push(bs.skip(1), b);
        assert(bs.push(b).skip(1) =~= bs.skip(1).push(b));
        assert(render_store(bs.push(b)) =~= render_store(bs) + line_of(b.0, b.1));
    }
}

/// Renders one binding as its `name=value` line, terminated by a line feed.
pub fn render_binding(name: &str, value: &str) -> (r: String)
    ensures
        r@ == line_of(name@, value@),
{
    let mut r = String::from_str(name);
    r.append("=");
    r.append(value);
    r.append("\n");
    r
}

/// The environment store: what the environment file holds, in binding order.
pub struct EnvStore {
    lines: Vec<Binding>,
}

impl View for EnvStore {
    type V = Seq<(Seq<char>, Seq<char>)>;

    closed spec fn view(&self) -> Seq<(Seq<char>, Seq<char>)> {
        binding_views(self.lines@)
    }
}

impl EnvStore {
    /// A fresh, empty store.
    pub fn new() -> (s: EnvStore)
        ensures
            s@ == Seq::<(Seq<char>, Seq<char>)>::empty(),
    {
        let s = EnvStore { lines: Vec::new() };
        proof {
            assert(s@ =~= Seq::<(Seq<char>, Seq<char>)>::empty());
        }
        s
    }

    /// Empties the store, whatever it held before.
    pub fn reset(&mut self)
        ensures
            final(self)@ == Seq::<(Seq<char>, Seq<char>)>::empty(),
    {
        self.lines = Vec::new();
        proof {
            assert(self@ =~= Seq::<(Seq<char>, Seq<char>)>::empty());
        }
    }

    /// Appends one binding at the end of the store.
    pub fn append(&mut self, b: Binding)
        ensures
            final(self)@ == old(self)@.push(b@),
    {
        let ghost pre = self@;
        let ghost bv = b@;
        self.lines.push(b);
        proof {
            assert(self@ =~= pre.push(bv));
        }
    }

    /// Appends a copy of each given binding at the end of the store, in order.
    pub fn append_all(&mut self, bs: &Vec<Binding>)
        ensures
            final(self)@ == old(self)@ + binding_views(bs@),
    {
        let ghost base = self@;
        let mut k: usize = 0;
        proof {
            assert(base + binding_views(bs@).take(0) =~= base);
        }
        while k < bs.len()
            invariant
                k <= bs@.len(),
                self@ == base + binding_views(bs@).take(k as int),
            decreases bs@.len() - k,
        {
            let b = Binding {
                name: bs[k].name.clone(),
                value: bs[k].value.clone(),
            };
            proof {
                assert(b@ == bs@[k as int]@);
                assert(binding_views(bs@)[k as int] == bs@[k as int]@);
            }
            self.append(b);
            proof {
                assert(binding_views(bs@).take(k + 1) =~= binding_views(bs@).take(k as int).push(
                    binding_views(bs@)[k as int],
                ));
                assert((base + binding_views(bs@).take(k as int)).push(binding_views(bs@)[k as int])
                    =~= base + binding_views(bs@).take(k + 1));
            }
            k += 1;
        }
        proof {
            assert(binding_views(bs@).take(bs@.len() as int) =~= binding_views(bs@));
        }
    }

    /// The number of bindings the store holds.
    pub fn count(&self) -> (n: usize)
        ensures
            n == self@.len(),
    {
        self.lines.len()
    }

    /// The binding at position `i`.
    pub fn get(&self, i: usize) -> (b: &Binding)
        requires
            i < self@.len(),
        ensures
            b@ == self@[i as int],
    {
        &self.lines[i]
    }

    /// The exact text of the environment file holding this store's bindings.
    pub fn render(&self) -> (r: String)
        ensures
            r@ == render_store(self@),
    {
        let mut r = String::new();
        let mut i: usize = 0;
        proof {
            assert(self@.take(0) =~= Seq::<(Seq<char>, Seq<char>)>::empty());
        }
        while i < self.lines.len()
            invariant
                i <= self.lines@.len(),
                self@ == binding_views(self.lines@),
                self@.len() == self.lines@.len(),
                r@ == render_store(self@.take(i as int)),
            decreases self.lines@.len() - i,
        {
            let line = render_binding(self.lines[i].name.as_str(), self.lines[i].value.as_str());
            r.append(line.as_str());
            proof {
                lemma_render_store_push(self@.take(i as int), self@[i as int]);
                assert(self@.take(i + 1) =~= self@.take(i as int).push(self@[i as int]));
                assert(self@[i as int] == self.lines@[i as int]@);
            }
            i += 1;
        }
        proof {
            assert(self@.take(self.lines@.len() as int) =~= self@);
        }
        r
    }
}

} // verus!
