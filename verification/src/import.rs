//! Keeping track of the files that an import is in the middle of.
//!
//! A document may draw in another file, which may draw in a third. The
//! files that are being resolved at one moment form a chain, each drawn in
//! by the one before it. A file that turns up in its own chain would be
//! resolved without end: [`ImportChain::enter`] refuses it.
use vstd::prelude::*;

verus! {

/// The refusal of a file that is being resolved already.
#[derive(Clone, Debug, PartialEq, Eq)]
pub struct ImportCycle {
    /// The file that was asked for a second time.
    pub path: String,
}

/// The files that are being resolved, outermost first.
///
/// The view is the chain of their paths. No path stands in it twice.
#[derive(Debug)]
pub struct ImportChain {
    open: Vec<String>,
}

impl View for ImportChain {
    type V = Seq<Seq<char>>;

    closed spec fn view(&self) -> Seq<Seq<char>> {
        Seq::new(self.open@.len(), |i: int| self.open@[i]@)
    }
}

impl ImportChain {
    #[verifier::type_invariant]
    spec fn paths_differ(self) -> bool {
        self@.no_duplicates()
    }

    /// The chain in which no file is being resolved.
    pub fn new() -> (chain: Self)
        ensures
            chain@ == Seq::<Seq<char>>::empty(),
    {
        ImportChain { open: Vec::new() }
    }

    /// The number of files that are being resolved.
    pub fn depth(&self) -> (depth: usize)
        ensures
            depth == self@.len(),
            self@.no_duplicates(),
    {
        proof {
            use_type_invariant(self);
        }
        self.open.len()
    }

    /// Whether `path` is being resolved.
    pub fn is_open(&self, path: &str) -> (open: bool)
        ensures
            open == self@.contains(path@),
    {
        let key = path.to_owned();
        let mut i: usize = 0;
        while i < self.open.len()
            invariant
                i <= self.open.len(),
                key@ == path@,
                forall|j: int| 0 <= j < i ==> self@[j] != path@,
            decreases self.open.len() - i,
        {
            if self.open[i] == key {
                assert(self@[i as int] == path@);
                return true;
            }
            i = i + 1;
        }
        false
    }

    /// Starts to resolve `path`. A path that is being resolved already is
    /// refused, and the chain stays as it was; any other path is put at the
    /// end of the chain.
    pub fn enter(&mut self, path: &str) -> (entered: Result<(), ImportCycle>)
        ensures
            match entered {
                Ok(()) => !old(self)@.contains(path@) && final(self)@ == old(self)@.push(path@),
                Err(cycle) => old(self)@.contains(path@) && final(self)@ == old(self)@
                    && cycle.path@ == path@,
            },
    {
        proof {
            use_type_invariant(&*self);
        }
        if self.is_open(path) {
            Err(ImportCycle { path: path.to_owned() })
        } else {
            let ghost before = self@;
            let mut open: Vec<String> = Vec::new();
            std::mem::swap(&mut self.open, &mut open);
            open.push(path.to_owned());
            proof {
                let after = Seq::new(open@.len(), |i: int| open@[i]@);
                assert(after =~= before.push(path@));
            }
            self.open = open;
            Ok(())
        }
    }

    /// Ends the resolving of the file that was entered last. An empty chain
    /// stays empty.
    pub fn leave(&mut self)
        ensures
            old(self)@.len() > 0 ==> final(self)@ == old(self)@.drop_last(),
            old(self)@.len() == 0 ==> final(self)@ == old(self)@,
    {
        proof {
            use_type_invariant(&*self);
        }
        let ghost before = self@;
        let mut open: Vec<String> = Vec::new();
        std::mem::swap(&mut self.open, &mut open);
        open.pop();
        proof {
            let after = Seq::new(open@.len(), |i: int| open@[i]@);
            if before.len() > 0 {
                assert(after =~= before.drop_last());
            }
        }
        self.open = open;
    }
}

} // verus!
