//! The import history: which file has imported which, kept to refuse
//! circular imports.
//!
//! The history is a ledger of pairs (importing file, imported file). It is
//! not a cache: a file that is imported twice is read and parsed twice.

use vstd::prelude::*;
use crate::text::{lemma_distinct_within, list_contains, option_view, string_views};

verus! {

/// One entry of the ledger.
#[derive(Debug)]
pub struct ImportLink {
    pub importer: String,
    pub imported: String,
}

/// The ledger as a sequence of pairs (importer, imported).
pub type Links = Seq<(Seq<char>, Seq<char>)>;

/// Whether `to` can be reached from `from` by following at most `steps`
/// entries of `links` from importer to imported.
pub open spec fn leads_to(links: Links, from: Seq<char>, to: Seq<char>, steps: nat) -> bool
    decreases steps,
{
    from == to || (steps > 0 && exists|i: int|
        0 <= i < links.len() && (#[trigger] links[i]).0 == from && leads_to(
            links,
            links[i].1,
            to,
            (steps - 1) as nat,
        ))
}

/// Whether `from` is `to` or imports it, directly or through other files.
pub open spec fn imports_transitively(links: Links, from: Seq<char>, to: Seq<char>) -> bool {
    exists|steps: nat| leads_to(links, from, to, steps)
}

/// Whether `files` holds every file that one of its files imports.
pub open spec fn closed_under(links: Links, files: Seq<Seq<char>>) -> bool {
    forall|i: int|
        0 <= i < links.len() && files.contains((#[trigger] links[i]).0) ==> files.contains(
            links[i].1,
        )
}

/// A chain that leads to `mid` goes one link further.
pub proof fn lemma_leads_further(links: Links, from: Seq<char>, mid: Seq<char>, steps: nat, i: int)
    requires
        leads_to(links, from, mid, steps),
        0 <= i < links.len(),
        links[i].0 == mid,
    ensures
        leads_to(links, from, links[i].1, steps + 1),
    decreases steps,
{
    if from == mid {
        assert(leads_to(links, links[i].1, links[i].1, steps));
    } else {
        let k = choose|k: int|
            0 <= k < links.len() && (#[trigger] links[k]).0 == from && leads_to(
                links,
                links[k].1,
                mid,
                (steps - 1) as nat,
            );
        lemma_leads_further(links, links[k].1, mid, (steps - 1) as nat, i);
    }
}

/// A chain cannot leave a closed set of files.
pub proof fn lemma_closed_holds(links: Links, files: Seq<Seq<char>>, from: Seq<char>, to: Seq<char>, steps: nat)
    requires
        closed_under(links, files),
        files.contains(from),
        leads_to(links, from, to, steps),
    ensures
        files.contains(to),
    decreases steps,
{
    if from != to {
        let k = choose|k: int|
            0 <= k < links.len() && (#[trigger] links[k]).0 == from && leads_to(
                links,
                links[k].1,
                to,
                (steps - 1) as nat,
            );
        lemma_closed_holds(links, files, links[k].1, to, (steps - 1) as nat);
    }
}

/// A ledger that has only grown keeps every chain.
pub proof fn lemma_leads_to_extends(old: Links, new: Links, from: Seq<char>, to: Seq<char>, steps: nat)
    requires
        old.is_prefix_of(new),
        leads_to(old, from, to, steps),
    ensures
        leads_to(new, from, to, steps),
    decreases steps,
{
    if from != to {
        let k = choose|k: int|
            0 <= k < old.len() && (#[trigger] old[k]).0 == from && leads_to(
                old,
                old[k].1,
                to,
                (steps - 1) as nat,
            );
        lemma_leads_to_extends(old, new, old[k].1, to, (steps - 1) as nat);
        assert(new[k] == old[k]);
    }
}

/// A ledger that has only grown keeps every transitive import.
pub proof fn lemma_imports_extend(old: Links, new: Links, from: Seq<char>, to: Seq<char>)
    requires
        old.is_prefix_of(new),
        imports_transitively(old, from, to),
    ensures
        imports_transitively(new, from, to),
{
    let steps = choose|steps: nat| leads_to(old, from, to, steps);
    lemma_leads_to_extends(old, new, from, to, steps);
}

/// Two chains, one behind the other, make one chain.
pub proof fn lemma_leads_on(links: Links, from: Seq<char>, mid: Seq<char>, to: Seq<char>, first: nat, second: nat)
    requires
        leads_to(links, from, mid, first),
        leads_to(links, mid, to, second),
    ensures
        leads_to(links, from, to, first + second),
    decreases first,
{
    if from == mid {
        lemma_more_steps(links, mid, to, second, first + second);
    } else {
        let k = choose|k: int|
            0 <= k < links.len() && (#[trigger] links[k]).0 == from && leads_to(
                links,
                links[k].1,
                mid,
                (first - 1) as nat,
            );
        lemma_leads_on(links, links[k].1, mid, to, (first - 1) as nat, second);
    }
}

/// A chain of some length is a chain of every greater length.
pub proof fn lemma_more_steps(links: Links, from: Seq<char>, to: Seq<char>, steps: nat, more: nat)
    requires
        leads_to(links, from, to, steps),
        steps <= more,
    ensures
        leads_to(links, from, to, more),
    decreases steps,
{
    if from != to {
        let k = choose|k: int|
            0 <= k < links.len() && (#[trigger] links[k]).0 == from && leads_to(
                links,
                links[k].1,
                to,
                (steps - 1) as nat,
            );
        lemma_more_steps(links, links[k].1, to, (steps - 1) as nat, (more - 1) as nat);
    }
}

/// Transitive imports compose.
pub proof fn lemma_imports_compose(links: Links, from: Seq<char>, mid: Seq<char>, to: Seq<char>)
    requires
        imports_transitively(links, from, mid),
        imports_transitively(links, mid, to),
    ensures
        imports_transitively(links, from, to),
{
    let first = choose|steps: nat| leads_to(links, from, mid, steps);
    let second = choose|steps: nat| leads_to(links, mid, to, steps);
    lemma_leads_on(links, from, mid, to, first, second);
}

/// A file imports itself in no steps: a self-import always closes a
/// circle.
pub proof fn lemma_self_import_is_circular(links: Links, file: Seq<char>)
    ensures
        is_circular(links, Some(file), file),
{
    assert(leads_to(links, file, file, 0));
}

/// What the ledger holds after a request has only grown it.
pub proof fn lemma_recorded_extends(links: Links, importer: Option<Seq<char>>, imported: Seq<char>)
    ensures
        links.is_prefix_of(recorded(links, importer, imported)),
{
}

/// After `importer` has imported `imported`, the ledger shows it, and an
/// import of `importer` by `imported` closes a circle.
pub proof fn lemma_recorded_import(links: Links, importer: Seq<char>, imported: Seq<char>)
    requires
        !is_circular(links, Some(importer), imported),
    ensures
        imports_transitively(recorded(links, Some(importer), imported), importer, imported),
        is_circular(recorded(links, Some(importer), imported), Some(imported), importer),
{
    let after = recorded(links, Some(importer), imported);
    let last = links.len() as int;
    assert(after[last] == (importer, imported));
    assert(leads_to(after, imported, imported, 0));
    assert(leads_to(after, importer, imported, 1));
}

/// The ledger of imports made so far in one compilation.
#[derive(Debug)]
pub struct ImportHistory {
    links: Vec<ImportLink>,
}

impl View for ImportHistory {
    type V = Links;

    closed spec fn view(&self) -> Links {
        self.links@.map_values(|l: ImportLink| (l.importer@, l.imported@))
    }
}

impl ImportHistory {
    /// An empty ledger.
    pub fn new() -> (history: ImportHistory)
        ensures
            history@ == Seq::<(Seq<char>, Seq<char>)>::empty(),
    {
        let history = ImportHistory { links: Vec::new() };
        assert(history@ =~= Seq::<(Seq<char>, Seq<char>)>::empty());
        history
    }

    /// How many pairs the ledger holds.
    pub fn len(&self) -> (n: usize)
        ensures
            n == self@.len(),
    {
        self.links.len()
    }

    /// Whether `from` is `to` or imports it, directly or through other
    /// files, by the pairs recorded so far.
    pub fn reaches(&self, from: &String, to: &String) -> (found: bool)
        ensures
            found == imports_transitively(self@, from@, to@),
    {
        let ghost links = self@;
        let ghost pool = seq![from@] + links.map_values(|l: (Seq<char>, Seq<char>)| l.1);
        let n: usize = self.links.len();
        let mut reached: Vec<String> = Vec::new();
        reached.push(from.clone());
        proof {
            assert(leads_to(links, from@, from@, 0));
            assert(pool[0] == from@);
            assert(string_views(reached@) =~= seq![from@]);
            lemma_distinct_within(string_views(reached@), pool);
        }
        loop
            invariant_except_break
                reached@.len() <= n + 1,
            invariant
                links == self@,
                n == self.links@.len(),
                pool.len() == n + 1,
                pool == seq![from@] + links.map_values(|l: (Seq<char>, Seq<char>)| l.1),
                string_views(reached@).contains(from@),
                string_views(reached@).no_duplicates(),
                forall|j: int|
                    0 <= j < reached@.len() ==> pool.contains(#[trigger] string_views(reached@)[j]),
                forall|j: int|
                    0 <= j < reached@.len() ==> imports_transitively(
                        links,
                        from@,
                        #[trigger] string_views(reached@)[j],
                    ),
            ensures
                closed_under(links, string_views(reached@)),
            decreases n + 1 - reached@.len(),
        {
            let before: usize = reached.len();
            let mut i: usize = 0;
            while i < n
                invariant
                    i <= n,
                    links == self@,
                    n == self.links@.len(),
                    pool.len() == n + 1,
                    pool == seq![from@] + links.map_values(|l: (Seq<char>, Seq<char>)| l.1),
                    before <= reached@.len() <= n + 1,
                    string_views(reached@).contains(from@),
                    string_views(reached@).no_duplicates(),
                    forall|j: int|
                        0 <= j < reached@.len() ==> pool.contains(
                            #[trigger] string_views(reached@)[j],
                        ),
                    forall|j: int|
                        0 <= j < reached@.len() ==> imports_transitively(
                            links,
                            from@,
                            #[trigger] string_views(reached@)[j],
                        ),
                    reached@.len() == before ==> forall|k: int|
                        0 <= k < i && string_views(reached@).contains((#[trigger] links[k]).0)
                            ==> string_views(reached@).contains(links[k].1),
                decreases n - i,
            {
                let link = &self.links[i];
                assert(links[i as int] == (link.importer@, link.imported@));
                if list_contains(&reached, &link.importer) && !list_contains(
                    &reached,
                    &link.imported,
                ) {
                    let ghost old_views = string_views(reached@);
                    reached.push(link.imported.clone());
                    proof {
                        let views = string_views(reached@);
                        assert(views =~= old_views.push(link.imported@));
                        assert(views.contains(from@)) by {
                            let j = choose|j: int| 0 <= j < old_views.len() && old_views[j] == from@;
                            assert(views[j] == from@);
                        }
                        assert(pool[i + 1] == link.imported@);
                        assert forall|j: int| 0 <= j < views.len() implies pool.contains(
                            #[trigger] views[j],
                        ) by {
                            if j < old_views.len() {
                                assert(views[j] == old_views[j]);
                            }
                        }
                        assert forall|j: int| 0 <= j < views.len() implies imports_transitively(
                            links,
                            from@,
                            #[trigger] views[j],
                        ) by {
                            if j < old_views.len() {
                                assert(views[j] == old_views[j]);
                            } else {
                                let m = choose|m: int|
                                    0 <= m < old_views.len() && old_views[m] == link.importer@;
                                let steps = choose|steps: nat|
                                    leads_to(links, from@, old_views[m], steps);
                                lemma_leads_further(links, from@, link.importer@, steps, i as int);
                            }
                        }
                        lemma_distinct_within(views, pool);
                    }
                }
                i = i + 1;
            }
            if reached.len() == before {
                break ;
            }
        }
        let found = list_contains(&reached, to);
        proof {
            let views = string_views(reached@);
            if found {
                let j = choose|j: int| 0 <= j < views.len() && views[j] == to@;
                assert(imports_transitively(links, from@, views[j]));
            }
            if imports_transitively(links, from@, to@) {
                let steps = choose|steps: nat| leads_to(links, from@, to@, steps);
                lemma_closed_holds(links, views, from@, to@, steps);
            }
        }
        found
    }

    /// Records that `importer` imports `imported`, unless that would close
    /// a circle: `imported` is `importer` itself or already imports it,
    /// directly or through other files. Text that lies in no file
    /// (`importer` is `None`) can be imported by nothing, so it is never
    /// part of a circle and leaves no entry.
    pub fn add_import(&mut self, importer: &Option<String>, imported: &String) -> (accepted: bool)
        ensures
            accepted == !is_circular(old(self)@, option_view(*importer), imported@),
            final(self)@ == recorded(old(self)@, option_view(*importer), imported@),
    {
        match importer {
            Some(file) => {
                if self.reaches(imported, file) {
                    false
                } else {
                    let ghost before = self@;
                    self.links.push(ImportLink { importer: file.clone(), imported: imported.clone() });
                    assert(self@ =~= before.push((file@, imported@)));
                    true
                }
            },
            None => true,
        }
    }
}

/// Whether an import of `imported` by `importer` would close a circle.
pub open spec fn is_circular(links: Links, importer: Option<Seq<char>>, imported: Seq<char>) -> bool {
    match importer {
        Some(file) => imports_transitively(links, imported, file),
        None => false,
    }
}

/// The ledger after `importer` has asked to import `imported`.
pub open spec fn recorded(links: Links, importer: Option<Seq<char>>, imported: Seq<char>) -> Links {
    match importer {
        Some(file) => if imports_transitively(links, imported, file) {
            links
        } else {
            links.push((file, imported))
        },
        None => links,
    }
}

} // verus!
