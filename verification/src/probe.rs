//! Finding out what the search feed accepts.

use vstd::prelude::*;
use vstd::string::StringExecFns;
use crate::json::Json;
use crate::keymap::{ascending, lemma_put, lookup, KeyMap};
use crate::search::{candidates, city_candidates, city_views, described, listing_views, CityMode, CityView};
use crate::text::{contains, holds, join, joined, list_items, owned, same, split_list, texts};

verus! {

/// Why a candidate is not taken: what its request failed with. A candidate whose
/// request is answered is taken.
pub open spec fn objection(city: CityView, outcome: Result<Json, String>) -> Option<Seq<char>> {
    match outcome {
        Ok(_) => None,
        Err(message) => Some(described(city) + ": "@ + message@),
    }
}

/// The ways to name the cities, tried one after another until the feed accepts one.
pub struct CityProbe {
    candidates: Vec<CityMode>,
    errors: Vec<String>,
}

impl CityProbe {
    /// The ways to name the cities, in the order in which they are tried.
    pub closed spec fn modes(self) -> Seq<CityView> {
        city_views(self.candidates@)
    }

    /// Why each candidate tried so far was not taken, in their order.
    pub closed spec fn objections(self) -> Seq<Seq<char>> {
        texts(self.errors@)
    }

    #[verifier::type_invariant]
    spec fn well_formed(self) -> bool {
        self.errors@.len() <= self.candidates@.len() && self.candidates@.len() > 0
    }

    /// The candidates for a list of cities, none of them tried yet.
    pub fn new(raw: &str) -> (r: Self)
        ensures
            r.modes() == candidates(raw@),
            r.objections() == Seq::<Seq<char>>::empty(),
    {
        let list = city_candidates(raw);
        proof {
            assert(city_views(list@).len() == list@.len());
        }
        let r = CityProbe { candidates: list, errors: Vec::new() };
        assert(r.objections() =~= Seq::<Seq<char>>::empty());
        r
    }

    /// Whether there is anything to find out: with one candidate there is not.
    pub fn is_open(&self) -> (r: bool)
        ensures
            r == (self.modes().len() != 1),
    {
        self.candidates.len() != 1
    }

    /// The candidate whose turn it is: the first that was not tried.
    pub fn current(&self) -> (r: Option<&CityMode>)
        ensures
            match r {
                Some(mode) => {
                    &&& self.objections().len() < self.modes().len()
                    &&& mode@ == self.modes()[self.objections().len() as int]
                },
                None => self.objections().len() == self.modes().len(),
            },
    {
        proof {
            use_type_invariant(self);
        }
        if self.errors.len() < self.candidates.len() {
            Some(&self.candidates[self.errors.len()])
        } else {
            None
        }
    }

    /// Takes what the current candidate's request came to. The answer is whether the
    /// candidate is taken; if not, the reason is noted and the next one has its turn.
    pub fn answer(&mut self, outcome: &Result<Json, String>) -> (r: bool)
        requires
            old(self).objections().len() < old(self).modes().len(),
        ensures
            final(self).modes() == old(self).modes(),
            match objection(old(self).modes()[old(self).objections().len() as int], *outcome) {
                None => r && final(self).objections() == old(self).objections(),
                Some(why) => !r && final(self).objections() == old(self).objections().push(why),
            },
    {
        let ghost before = self.objections();
        let i = self.errors.len();
        let named = self.candidates[i].describe();
        assert(named@ == described(self.modes()[i as int]));
        let why: String = match outcome {
            Ok(_) => return true,
            Err(message) => named.concat(": ").concat(message.as_str()),
        };
        let ghost noted = why@;
        let mut errors: Vec<String> = Vec::new();
        std::mem::swap(&mut self.errors, &mut errors);
        errors.push(why);
        self.errors = errors;
        assert(self.objections() =~= before.push(noted));
        false
    }

    /// The current candidate, to be used from now on.
    pub fn settle(self) -> (r: CityMode)
        requires
            self.objections().len() < self.modes().len(),
        ensures
            r@ == self.modes()[self.objections().len() as int],
    {
        let mut list = self.candidates;
        let i = self.errors.len();
        let ghost all = city_views(list@);
        let r = list.swap_remove(i);
        assert(r@ == all[i as int]);
        r
    }

    /// What to say when no candidate is left.
    pub fn failure(&self) -> (r: String)
        ensures
            r@ == "could not work out how to request the whole country. Tried:\n  "@ + joined(
                self.objections(),
                "\n  "@,
            )
                + "\nFall back to explicit ids: --list-cities to dump them, then --city-ids 1,2,3,..."@,
    {
        "could not work out how to request the whole country. Tried:\n  ".to_owned().concat(
            join(&self.errors, "\n  ").as_str(),
        ).concat("\nFall back to explicit ids: --list-cities to dump them, then --city-ids 1,2,3,...")
    }
}

/// The categories that are worth a try.
pub open spec fn known_categories() -> Seq<Seq<char>> {
    seq![
        "vehicles"@,
        "auto"@,
        "cars"@,
        "car"@,
        "light"@,
        "heavy"@,
        "classic"@,
        "motorcycles"@,
        "auto-parts"@,
        "car-rental"@,
        "rent-car"@,
        "vans"@,
        "trucks"@,
        "buses"@,
        "light-car"@,
        "heavy-car"@,
        "automobile"@,
        "vehicle"@,
    ]
}

/// `list` with each of `more` that is not there yet added at its end.
pub open spec fn with_new(list: Seq<Seq<char>>, more: Seq<Seq<char>>) -> Seq<Seq<char>>
    decreases more.len(),
{
    if more.len() == 0 {
        list
    } else {
        let front = with_new(list, more.drop_last());
        if front.contains(more.last()) {
            front
        } else {
            front.push(more.last())
        }
    }
}

pub(crate) fn is_listed(list: &Vec<String>, item: &str) -> (r: bool)
    ensures
        r == texts(list@).contains(item@),
{
    for i in 0..list.len()
        invariant
            forall|j: int| 0 <= j < i ==> (#[trigger] list@[j])@ != item@,
    {
        if same(list[i].as_str(), item) {
            assert(texts(list@)[i as int] == item@);
            return true;
        }
    }
    assert forall|j: int| 0 <= j < list@.len() implies #[trigger] texts(list@)[j] != item@ by {
        assert(list@[j]@ != item@);
    }
    false
}

/// The categories to try: the known ones, then those of a comma-separated list.
pub fn category_candidates(extra: &str) -> (r: Vec<String>)
    ensures
        texts(r@) == with_new(known_categories(), list_items(extra@)),
{
    let known = [
        "vehicles",
        "auto",
        "cars",
        "car",
        "light",
        "heavy",
        "classic",
        "motorcycles",
        "auto-parts",
        "car-rental",
        "rent-car",
        "vans",
        "trucks",
        "buses",
        "light-car",
        "heavy-car",
        "automobile",
        "vehicle",
    ];
    let mut out = owned(&known);
    let more = split_list(extra);
    let ghost all = texts(more@);
    assert(texts(out@) =~= known_categories());
    assert(all.take(0) =~= Seq::empty());
    for i in 0..more.len()
        invariant
            all == texts(more@),
            texts(out@) == with_new(known_categories(), all.take(i as int)),
    {
        proof {
            assert(all.take(i + 1).drop_last() =~= all.take(i as int));
            assert(all.take(i + 1).last() == more@[i as int]@);
        }
        if !is_listed(&out, more[i].as_str()) {
            let ghost before = texts(out@);
            out.push(more[i].clone());
            assert(texts(out@) =~= before.push(all[i as int]));
        }
    }
    assert(all.take(more@.len() as int) =~= all);
    out
}

/// The categories to try, and those of them that the feed has accepted so far.
pub struct CategoryProbe {
    candidates: Vec<String>,
    next: usize,
    valid: Vec<String>,
}

/// The names whose outcome, at the same place, is a success.
pub open spec fn accepted_among(names: Seq<Seq<char>>, outcomes: Seq<Result<Json, String>>) -> Seq<Seq<char>>
    decreases outcomes.len(),
{
    if outcomes.len() == 0 {
        Seq::empty()
    } else {
        let front = accepted_among(names, outcomes.drop_last());
        if outcomes.last() is Ok {
            front.push(names[outcomes.len() - 1])
        } else {
            front
        }
    }
}

impl CategoryProbe {
    /// The categories, in the order in which they are tried.
    pub closed spec fn names(self) -> Seq<Seq<char>> {
        texts(self.candidates@)
    }

    /// How many of them were tried.
    pub closed spec fn tried(self) -> nat {
        self.next as nat
    }

    /// Those that were accepted, in their order.
    pub closed spec fn accepted(self) -> Seq<Seq<char>> {
        texts(self.valid@)
    }

    #[verifier::type_invariant]
    spec fn well_formed(self) -> bool {
        self.next <= self.candidates@.len()
    }

    /// The known categories and those of a comma-separated list, none of them tried yet.
    pub fn new(extra: &str) -> (r: Self)
        ensures
            r.names() == with_new(known_categories(), list_items(extra@)),
            r.tried() == 0,
            r.accepted() == Seq::<Seq<char>>::empty(),
    {
        let r = CategoryProbe { candidates: category_candidates(extra), next: 0, valid: Vec::new() };
        assert(r.accepted() =~= Seq::<Seq<char>>::empty());
        r
    }

    /// The category whose turn it is.
    pub fn current(&self) -> (r: Option<&String>)
        ensures
            match r {
                Some(name) => self.tried() < self.names().len() && name@ == self.names()[self.tried() as int],
                None => self.tried() == self.names().len(),
            },
    {
        proof {
            use_type_invariant(self);
        }
        if self.next < self.candidates.len() {
            Some(&self.candidates[self.next])
        } else {
            None
        }
    }

    /// Takes what the current category's request came to. Each is tried once: the next
    /// one has its turn, whatever the outcome.
    pub fn answer(&mut self, outcome: &Result<Json, String>)
        requires
            old(self).tried() < old(self).names().len(),
        ensures
            final(self).names() == old(self).names(),
            final(self).tried() == old(self).tried() + 1,
            final(self).accepted() == if *outcome is Ok {
                old(self).accepted().push(old(self).names()[old(self).tried() as int])
            } else {
                old(self).accepted()
            },
    {
        let ghost before = self.accepted();
        let ghost name = self.names()[self.tried() as int];
        assert(self.next < self.candidates.len());
        if outcome.is_ok() {
            let category = self.candidates[self.next].clone();
            let mut valid: Vec<String> = Vec::new();
            std::mem::swap(&mut self.valid, &mut valid);
            valid.push(category);
            self.valid = valid;
            assert(self.accepted() =~= before.push(name));
        }
        self.next = self.next + 1;
    }

    /// The categories that were accepted; an error where none was.
    pub fn finish(self) -> (r: Result<Vec<String>, String>)
        ensures
            match r {
                Ok(list) => self.accepted().len() > 0 && texts(list@) == self.accepted(),
                Err(message) => {
                    &&& self.accepted().len() == 0
                    &&& message@ == "no candidate category was accepted; check divar.ir's own network tab"@
                },
            },
    {
        let list = self.valid;
        assert(texts(list@).len() == list@.len());
        if list.len() == 0 {
            Err("no candidate category was accepted; check divar.ir's own network tab".to_owned())
        } else {
            Ok(list)
        }
    }
}

/// One outcome more adds what the step of a probe adds.
pub proof fn law_probe_step(names: Seq<Seq<char>>, outcomes: Seq<Result<Json, String>>, outcome: Result<Json, String>)
    ensures
        accepted_among(names, outcomes.push(outcome)) == if outcome is Ok {
            accepted_among(names, outcomes).push(names[outcomes.len() as int])
        } else {
            accepted_among(names, outcomes)
        },
{
    assert(outcomes.push(outcome).drop_last() =~= outcomes);
}

/// A probe fails exactly where every request failed.
pub proof fn law_probe_fails_without_success(names: Seq<Seq<char>>, outcomes: Seq<Result<Json, String>>)
    ensures
        accepted_among(names, outcomes).len() == 0 <==> forall|i: int|
            0 <= i < outcomes.len() ==> (#[trigger] outcomes[i]) is Err,
    decreases outcomes.len(),
{
    if outcomes.len() > 0 {
        let front = outcomes.drop_last();
        law_probe_fails_without_success(names, front);
        assert(outcomes.last() == outcomes[outcomes.len() - 1]);
        if forall|i: int| 0 <= i < outcomes.len() ==> (#[trigger] outcomes[i]) is Err {
            assert forall|i: int| 0 <= i < front.len() implies (#[trigger] front[i]) is Err by {
                assert(front[i] == outcomes[i]);
            }
        }
        if accepted_among(names, outcomes).len() == 0 {
            assert forall|i: int| 0 <= i < outcomes.len() implies (#[trigger] outcomes[i]) is Err by {
                if i < front.len() {
                    assert(front[i] == outcomes[i]);
                }
            }
        }
    }
}

proof fn lemma_known_categories()
    ensures
        known_categories().no_duplicates(),
{
    reveal_strlit("vehicles");
    reveal_strlit("auto");
    reveal_strlit("cars");
    reveal_strlit("car");
    reveal_strlit("light");
    reveal_strlit("heavy");
    reveal_strlit("classic");
    reveal_strlit("motorcycles");
    reveal_strlit("auto-parts");
    reveal_strlit("car-rental");
    reveal_strlit("rent-car");
    reveal_strlit("vans");
    reveal_strlit("trucks");
    reveal_strlit("buses");
    reveal_strlit("light-car");
    reveal_strlit("heavy-car");
    reveal_strlit("automobile");
    reveal_strlit("vehicle");
    let names = known_categories();
    assert forall|i: int, j: int| 0 <= i < j < names.len() implies #[trigger] names[i] != #[trigger] names[j] by {
        assert(names[i].len() != names[j].len() || names[i][0] != names[j][0] || names[i][1] != names[j][1]
            || names[i][2] != names[j][2] || names[i][3] != names[j][3] || names[i][4] != names[j][4]);
    }
}

proof fn lemma_with_new_distinct(list: Seq<Seq<char>>, more: Seq<Seq<char>>)
    requires
        list.no_duplicates(),
    ensures
        with_new(list, more).no_duplicates(),
        forall|c: Seq<char>| #[trigger] with_new(list, more).contains(c) <==> list.contains(c) || more.contains(c),
    decreases more.len(),
{
    if more.len() > 0 {
        let less = more.drop_last();
        let front = with_new(list, less);
        let all = with_new(list, more);
        lemma_with_new_distinct(list, less);
        crate::seqs::lemma_to_set_step(more, more.len() - 1);
        assert(more.take(more.len() - 1) =~= less);
        assert(more.take(more.len() as int) =~= more);
        assert forall|c: Seq<char>| #[trigger] all.contains(c) <==> list.contains(c) || more.contains(c) by {
            assert(more.to_set().contains(c) <==> less.to_set().contains(c) || c == more.last());
            assert(front.contains(c) <==> list.contains(c) || less.contains(c));
            if front.contains(c) {
                let i = choose|i: int| 0 <= i < front.len() && front[i] == c;
                assert(all[i] == c);
            }
            if !front.contains(more.last()) {
                assert(all[front.len() as int] == more.last());
                if all.contains(c) {
                    let i = choose|i: int| 0 <= i < all.len() && all[i] == c;
                    if i < front.len() {
                        assert(front[i] == c);
                    }
                }
            }
        }
        if !front.contains(more.last()) {
            assert forall|i: int, j: int| 0 <= i < all.len() && 0 <= j < all.len() && i != j implies all[i] != all[j] by {
                if i < front.len() {
                    assert(front.contains(front[i]));
                }
                if j < front.len() {
                    assert(front.contains(front[j]));
                }
            }
        }
    } else {
        assert forall|c: Seq<char>| #[trigger] with_new(list, more).contains(c) <==> list.contains(c) || more.contains(
            c,
        ) by {}
    }
}

/// No category is tried twice, and each that is known or was named is tried.
pub proof fn law_categories_are_tried_once(named: Seq<Seq<char>>)
    ensures
        with_new(known_categories(), named).no_duplicates(),
        forall|c: Seq<char>|
            #[trigger] with_new(known_categories(), named).contains(c) <==> known_categories().contains(c)
                || named.contains(c),
{
    lemma_known_categories();
    lemma_with_new_distinct(known_categories(), named);
}

/// Why a category was refused, in a word or two.
pub fn refusal(message: &str) -> (r: &'static str)
    ensures
        r@ == if holds(message@, "invalid category"@) {
            "invalid category"@
        } else {
            "error"@
        },
        holds(message@, "invalid category"@) ==> r@ == "invalid category"@,
        !holds(message@, "invalid category"@) ==> r@ == "error"@,
{
    if contains(message, "invalid category") {
        "invalid category"
    } else {
        "error"
    }
}

/// How often a label occurs.
pub open spec fn occurrences(labels: Seq<Seq<char>>, label: Seq<char>) -> nat
    decreases labels.len(),
{
    if labels.len() == 0 {
        0
    } else if labels.last() == label {
        occurrences(labels.drop_last(), label) + 1
    } else {
        occurrences(labels.drop_last(), label)
    }
}

/// The counts are those of the labels: each label that occurs, with how often, in
/// ascending order of labels.
pub open spec fn counts_of(pairs: Seq<(Seq<char>, usize)>, labels: Seq<Seq<char>>) -> bool {
    &&& ascending(pairs)
    &&& forall|label: Seq<char>|
        #[trigger] lookup(pairs, label) == if occurrences(labels, label) == 0 {
            None
        } else {
            Some(occurrences(labels, label) as usize)
        }
}

pub proof fn lemma_occurrences_bounded(labels: Seq<Seq<char>>, label: Seq<char>)
    ensures
        occurrences(labels, label) <= labels.len(),
    decreases labels.len(),
{
    if labels.len() > 0 {
        lemma_occurrences_bounded(labels.drop_last(), label);
    }
}

/// Counts one label more.
pub(crate) fn count_label(counts: &mut KeyMap<usize>, label: &str, Ghost(labels): Ghost<Seq<Seq<char>>>)
    requires
        counts_of(old(counts).pairs(), labels),
        labels.len() < usize::MAX,
    ensures
        counts_of(final(counts).pairs(), labels.push(label@)),
{
    let ghost before = counts.pairs();
    let n: usize = match counts.get(label) {
        Some(n) => *n,
        None => 0,
    };
    proof {
        lemma_occurrences_bounded(labels, label@);
        lemma_put(before, label@, (n + 1) as usize);
        assert(labels.push(label@).drop_last() =~= labels);
    }
    counts.insert(label.to_owned(), n + 1);
    assert forall|other: Seq<char>| #[trigger] lookup(counts.pairs(), other) == if occurrences(
        labels.push(label@),
        other,
    ) == 0 {
        None
    } else {
        Some(occurrences(labels.push(label@), other) as usize)
    } by {
        if other != label@ {
            assert(lookup(counts.pairs(), other) == lookup(before, other));
        }
    }
}

/// The label of a listing on a page that is tried: its category, or a question mark.
pub open spec fn page_label(p: (Seq<char>, Seq<char>)) -> Seq<char> {
    if p.1.len() == 0 {
        "?"@
    } else {
        p.1
    }
}

/// Counts the categories of the listings on a page.
pub fn page_breakdown(list: &Vec<(String, String)>) -> (r: KeyMap<usize>)
    ensures
        counts_of(r.pairs(), listing_views(list@).map_values(|p: (Seq<char>, Seq<char>)| page_label(p))),
{
    let ghost labels = listing_views(list@).map_values(|p: (Seq<char>, Seq<char>)| page_label(p));
    let mut counts: KeyMap<usize> = KeyMap::new();
    assert(labels.take(0) =~= Seq::empty());
    for i in 0..list.len()
        invariant
            labels == listing_views(list@).map_values(|p: (Seq<char>, Seq<char>)| page_label(p)),
            counts_of(counts.pairs(), labels.take(i as int)),
    {
        let slug = list[i].1.as_str();
        proof {
            assert(listing_views(list@)[i as int] == (list@[i as int].0@, list@[i as int].1@));
            assert(labels.take(i + 1) =~= labels.take(i as int).push(labels[i as int]));
        }
        if slug.is_empty() {
            count_label(&mut counts, "?", Ghost(labels.take(i as int)));
        } else {
            count_label(&mut counts, slug, Ghost(labels.take(i as int)));
        }
    }
    assert(labels.take(list@.len() as int) =~= labels);
    counts
}

} // verus!
