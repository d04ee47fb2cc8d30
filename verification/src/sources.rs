//! Loaded policy sources: the text, the optional filename it was loaded as,
//! and the registry keyed by source id.

use vstd::prelude::*;

verus! {

/// One loaded policy source.
#[derive(Debug)]
pub struct Source {
    /// The filename the source was loaded as, if it came from a file.
    pub filename: Option<String>,
    /// The policy text.
    pub src: String,
}

impl Source {
    pub fn new(filename: Option<String>, src: String) -> (r: Source)
        ensures
            r.filename == filename,
            r.src == src,
    {
        Source { filename, src }
    }
}

impl Clone for Source {
    fn clone(&self) -> (r: Self)
        ensures
            r == *self,
    {
        Source {
            filename: match &self.filename {
                Option::Some(f) => Option::Some(f.clone()),
                Option::None => Option::None,
            },
            src: self.src.clone(),
        }
    }
}

/// The source found under `id`, taking the first occurrence.
pub open spec fn lookup_source(sources: Seq<(u64, Source)>, id: u64) -> Option<Source>
    decreases sources.len(),
{
    if sources.len() == 0 {
        Option::None
    } else if sources[0].0 == id {
        Option::Some(sources[0].1)
    } else {
        lookup_source(sources.drop_first(), id)
    }
}

/// Keep the sources that are not registered under `sid`.
pub open spec fn source_keep(sid: u64) -> spec_fn((u64, Source)) -> bool {
    |p: (u64, Source)| p.0 != sid
}

/// The registry of loaded sources, keyed by source id.
pub struct Sources {
    pub sources: Vec<(u64, Source)>,
}

impl Sources {
    pub fn new() -> (r: Sources)
        ensures
            r.sources@ == Seq::<(u64, Source)>::empty(),
    {
        Sources { sources: Vec::new() }
    }

        /// Register `source` under `id`.
    pub fn add_source(&mut self, source: Source, id: u64)
        ensures
            final(self).sources@ == old(self).sources@.push((id, source)),
    {
        self.sources.push((id, source));
    }

    /// Look up the source registered under `id`.
    pub fn get_source(&self, id: u64) -> (r: Option<&Source>)
        ensures
            match r {
                Option::Some(s) => lookup_source(self.sources@, id) == Option::Some(*s),
                Option::None => lookup_source(self.sources@, id) is None,
            },
    {
        let n = self.sources.len();
        let mut i: usize = 0;
        proof {
            assert(self.sources@.skip(0) =~= self.sources@);
        }
        while i < n
            invariant
                i <= n,
                n == self.sources@.len(),
                lookup_source(self.sources@, id) == lookup_source(
                    self.sources@.skip(i as int),
                    id,
                ),
            decreases n - i,
        {
            proof {
                assert(self.sources@.skip(i as int).drop_first() =~= self.sources@.skip(
                    i + 1 as int,
                ));
                assert(self.sources@.skip(i as int)[0] == self.sources@[i as int]);
            }
            if self.sources[i].0 == id {
                return Option::Some(&self.sources[i].1);
            }
            i += 1;
        }
        proof {
            assert(self.sources@.skip(n as int) =~= Seq::<(u64, Source)>::empty());
        }
        Option::None
    }

    /// Remove and return the source registered under `id`; the remaining
    /// entries keep their order.
    pub fn remove_source(&mut self, id: u64) -> (r: Option<Source>)
        ensures
            match r {
                Option::Some(s) => {
                    &&& lookup_source(old(self).sources@, id) == Option::Some(s)
                    &&& final(self).sources@ == old(self).sources@.filter(source_keep(id))
                },
                Option::None => {
                    &&& lookup_source(old(self).sources@, id) is None
                    &&& *final(self) == *old(self)
                },
            },
    {
        broadcast use vstd::seq_lib::group_filter_ensures;

        let ghost orig = self.sources@;
        let n = self.sources.len();
        let mut kept: Vec<(u64, Source)> = Vec::new();
        let mut found: Option<Source> = Option::None;
        let mut i: usize = 0;
        proof {
            assert(orig.skip(0) =~= orig);
            assert(orig.take(0).filter(source_keep(id)) =~= Seq::<(u64, Source)>::empty());
        }
        while i < n
            invariant
                i <= n,
                n == self.sources@.len(),
                self.sources@ == orig,
                kept@ == orig.take(i as int).filter(source_keep(id)),
                match found {
                    Option::Some(s) => lookup_source(orig, id) == Option::Some(s),
                    Option::None => lookup_source(orig.skip(i as int), id) == lookup_source(
                        orig,
                        id,
                    ),
                },
            decreases n - i,
        {
            proof {
                assert(orig.skip(i as int).drop_first() =~= orig.skip(i + 1 as int));
                assert(orig.skip(i as int)[0] == orig[i as int]);
                assert(orig.take(i + 1 as int) =~= orig.take(i as int).push(orig[i as int]));
                orig.take(i as int).lemma_filter_push(orig[i as int], source_keep(id));
            }
            let entry = &self.sources[i];
            if entry.0 == id {
                if found.is_none() {
                    found = Option::Some(entry.1.clone());
                }
            } else {
                kept.push((entry.0, entry.1.clone()));
            }
            i += 1;
        }
        proof {
            assert(orig.take(n as int) =~= orig);
            assert(orig.skip(n as int) =~= Seq::<(u64, Source)>::empty());
        }
        match found {
            Option::Some(s) => {
                self.sources = kept;
                Option::Some(s)
            },
            Option::None => Option::None,
        }
    }
}

} // verus!
