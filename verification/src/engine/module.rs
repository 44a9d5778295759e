//! Ports, connections and the routing of the modular graph.

use vstd::prelude::*;

verus! {

/// Identifier of a module's input, output or parameter.
#[derive(Debug, Clone, Copy, PartialEq, Eq, Hash, Structural)]
pub struct PortId(pub u32);

/// An output port of a module.
#[derive(Debug, Clone)]
pub struct OutputPort {
    pub id: PortId,
    pub name: &'static str,
}

/// A connection from an output of one module to an input of another,
/// scaled by `amount`.
#[derive(Debug, Clone)]
pub struct Connection<A> {
    pub source_module: usize,
    pub source_port: PortId,
    pub dest_module: usize,
    pub dest_port: PortId,
    pub amount: A,
}

impl<A> Connection<A> {
    /// A connection with the given ends and amount.
    pub fn new(source_module: usize, source_port: PortId, dest_module: usize, dest_port: PortId, amount: A) -> (c: Self)
        ensures
            c == (Connection { source_module, source_port, dest_module, dest_port, amount }),
    {
        Connection { source_module, source_port, dest_module, dest_port, amount }
    }
}

/// Both ends of `c` are among the first `modules` modules.
pub open spec fn links_existing<A>(c: Connection<A>, modules: nat) -> bool {
    c.source_module < modules && c.dest_module < modules
}

/// The indices, in increasing order, of the connections among the first `n`
/// of `links` that lead into module `dest`.
pub open spec fn feeding_indices<A>(links: Seq<Connection<A>>, dest: usize, n: int) -> Seq<usize>
    decreases n,
{
    if n <= 0 {
        Seq::empty()
    } else if links[n - 1].dest_module == dest {
        feeding_indices(links, dest, n - 1).push((n - 1) as usize)
    } else {
        feeding_indices(links, dest, n - 1)
    }
}

/// The routing of the modular graph: how many modules there are, and the
/// connections between them in the order they were made.
#[derive(Debug, Clone)]
pub struct Routing<A> {
    module_count: usize,
    connections: Vec<Connection<A>>,
}

impl<A> Routing<A> {
    /// Number of modules.
    pub closed spec fn modules(&self) -> nat {
        self.module_count as nat
    }

    /// The connections, oldest first.
    pub closed spec fn links(&self) -> Seq<Connection<A>> {
        self.connections@
    }

    /// The routing's invariant: every connection joins two existing modules.
    pub open spec fn wf(&self) -> bool {
        forall|i: int| 0 <= i < self.links().len() ==> links_existing(#[trigger] self.links()[i], self.modules())
    }

    /// No modules and no connections.
    pub fn new() -> (r: Self)
        ensures
            r.wf(),
            r.modules() == 0,
            r.links() == Seq::<Connection<A>>::empty(),
    {
        Routing { module_count: 0, connections: Vec::new() }
    }

    /// Adds a module and returns its index.
    pub fn add_module(&mut self) -> (index: usize)
        requires
            old(self).wf(),
            old(self).modules() < usize::MAX,
        ensures
            final(self).wf(),
            index == old(self).modules(),
            final(self).modules() == old(self).modules() + 1,
            final(self).links() == old(self).links(),
    {
        let index = self.module_count;
        self.module_count = self.module_count + 1;
        proof {
            assert forall|i: int| 0 <= i < self.links().len() implies links_existing(
                #[trigger] self.links()[i],
                self.modules(),
            ) by {
                assert(links_existing(old(self).links()[i], old(self).modules()));
            }
        }
        index
    }

    /// Connects an output of `source_module` to an input of `dest_module`;
    /// refused, and nothing changes, unless both modules exist.
    pub fn connect(
        &mut self,
        source_module: usize,
        source_port: PortId,
        dest_module: usize,
        dest_port: PortId,
        amount: A,
    ) -> (connected: bool)
        requires
            old(self).wf(),
        ensures
            final(self).wf(),
            final(self).modules() == old(self).modules(),
            connected == (source_module < old(self).modules() && dest_module < old(self).modules()),
            final(self).links() == if connected {
                old(self).links().push(Connection { source_module, source_port, dest_module, dest_port, amount })
            } else {
                old(self).links()
            },
    {
        if source_module >= self.module_count || dest_module >= self.module_count {
            return false;
        }
        self.connections.push(Connection::new(source_module, source_port, dest_module, dest_port, amount));
        proof {
            assert forall|i: int| 0 <= i < self.links().len() implies links_existing(
                #[trigger] self.links()[i],
                self.modules(),
            ) by {
                if i < old(self).links().len() {
                    assert(self.links()[i] == old(self).links()[i]);
                }
            }
        }
        true
    }

    /// Removes every connection; the modules stay.
    pub fn clear_connections(&mut self)
        requires
            old(self).wf(),
        ensures
            final(self).wf(),
            final(self).modules() == old(self).modules(),
            final(self).links() == Seq::<Connection<A>>::empty(),
    {
        self.connections.clear();
    }

    /// Number of modules.
    pub fn module_count(&self) -> (n: usize)
        ensures
            n == self.modules(),
    {
        self.module_count
    }

    /// Number of connections.
    pub fn connection_count(&self) -> (n: usize)
        ensures
            n == self.links().len(),
    {
        self.connections.len()
    }

    /// The connections, oldest first.
    pub fn connections(&self) -> (links: &[Connection<A>])
        ensures
            links@ == self.links(),
    {
        self.connections.as_slice()
    }

    /// The indices of the connections leading into module `dest`, oldest first.
    pub fn feeding(&self, dest: usize) -> (found: Vec<usize>)
        ensures
            found@ == feeding_indices(self.links(), dest, self.links().len() as int),
    {
        let mut found: Vec<usize> = Vec::new();
        let mut i: usize = 0;
        while i < self.connections.len()
            invariant
                i <= self.connections@.len(),
                found@ == feeding_indices(self.connections@, dest, i as int),
            decreases self.connections@.len() - i,
        {
            if self.connections[i].dest_module == dest {
                found.push(i);
            }
            i = i + 1;
        }
        found
    }
}

/// Whatever is done to a routing, each of its connections joins two modules
/// that exist: a fresh routing has none, a refused connection leaves it as it
/// was, and modules are never taken away.
pub proof fn lemma_connections_join_existing_modules<A>(r: Routing<A>, i: int)
    requires
        r.wf(),
        0 <= i < r.links().len(),
    ensures
        r.links()[i].source_module < r.modules(),
        r.links()[i].dest_module < r.modules(),
{
    assert(links_existing(r.links()[i], r.modules()));
}

/// The connections feeding a module are exactly those whose destination it
/// is, each listed once, in the order they were made.
pub proof fn lemma_feeding_exact<A>(links: Seq<Connection<A>>, dest: usize, n: int)
    requires
        0 <= n <= links.len(),
        links.len() <= usize::MAX,
    ensures
        forall|k: int| 0 <= k < feeding_indices(links, dest, n).len()
            ==> (#[trigger] feeding_indices(links, dest, n)[k]) < n
                && links[feeding_indices(links, dest, n)[k] as int].dest_module == dest,
        forall|k1: int, k2: int| 0 <= k1 < k2 < feeding_indices(links, dest, n).len()
            ==> feeding_indices(links, dest, n)[k1] < feeding_indices(links, dest, n)[k2],
        forall|j: int| 0 <= j < n && #[trigger] links[j].dest_module == dest
            ==> feeding_indices(links, dest, n).contains(j as usize),
    decreases n,
{
    if n > 0 {
        lemma_feeding_exact(links, dest, n - 1);
        let prev = feeding_indices(links, dest, n - 1);
        let cur = feeding_indices(links, dest, n);
        if links[n - 1].dest_module == dest {
            assert(cur == prev.push((n - 1) as usize));
            assert forall|k: int| 0 <= k < cur.len() implies (#[trigger] cur[k]) < n
                && links[cur[k] as int].dest_module == dest by {
                if k < prev.len() {
                    assert(cur[k] == prev[k]);
                }
            }
            assert forall|k1: int, k2: int| 0 <= k1 < k2 < cur.len() implies cur[k1] < cur[k2] by {
                assert(cur[k1] == prev[k1]);
                if k2 < prev.len() {
                    assert(cur[k2] == prev[k2]);
                }
            }
            assert forall|j: int| 0 <= j < n && #[trigger] links[j].dest_module == dest
                implies cur.contains(j as usize) by {
                if j < n - 1 {
                    assert(prev.contains(j as usize));
                    let k = choose|k: int| 0 <= k < prev.len() && prev[k] == j as usize;
                    assert(cur[k] == j as usize);
                } else {
                    assert(cur[prev.len() as int] == j as usize);
                }
            }
        } else {
            assert(cur == prev);
            assert forall|j: int| 0 <= j < n && #[trigger] links[j].dest_module == dest
                implies cur.contains(j as usize) by {
                assert(j < n - 1);
            }
        }
    }
}

} // verus!
