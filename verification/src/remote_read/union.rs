//! Merging the series that the nodes of a cluster selected.

use vstd::layout;
use vstd::prelude::*;

use crate::budget;
use crate::budget::QueryBudgetError;
use crate::names;
use crate::remote_read::errors::ReadFanoutError;
use crate::remote_read::execution;
use crate::remote_read::model;
use crate::remote_read::transform;
use crate::series;
use crate::series::Label;
use crate::series::MetricSeries;
use crate::series::MetricSeriesView;
use crate::series::Rank;
use crate::sizes;
use crate::stable;
use crate::text;

verus! {

/// Whether a series comes before another: by its name, then by its labels.
pub open spec fn identity_before(a: MetricSeriesView, b: MetricSeriesView) -> bool {
    text::text_less(a.name, b.name) || (a.name == b.name && series::labels_before(
        a.labels,
        b.labels,
    ))
}

proof fn lemma_identity_irreflexive(a: MetricSeriesView)
    ensures
        !identity_before(a, a),
{
    names::lemma_text_irreflexive(a.name);
    series::lemma_labels_irreflexive(a.labels);
}

proof fn lemma_identity_transitive(
    a: MetricSeriesView,
    b: MetricSeriesView,
    c: MetricSeriesView,
)
    requires
        identity_before(a, b),
        identity_before(b, c),
    ensures
        identity_before(a, c),
{
    if text::text_less(a.name, b.name) && text::text_less(b.name, c.name) {
        names::lemma_text_transitive(a.name, b.name, c.name);
    }
    if series::labels_before(a.labels, b.labels) && series::labels_before(b.labels, c.labels) {
        series::lemma_labels_transitive(a.labels, b.labels, c.labels);
    }
}

fn rank_identities(a: &MetricSeries, b: &MetricSeries) -> (rank: Rank)
    ensures
        match rank {
            Rank::Before => identity_before(a@, b@),
            Rank::Same => a@ == b@,
            Rank::After => identity_before(b@, a@),
        },
{
    if names::same_text(a.name.as_str(), b.name.as_str()) {
        series::rank_labels(&a.labels, &b.labels)
    } else if names::comes_before(a.name.as_str(), b.name.as_str()) {
        Rank::Before
    } else {
        proof {
            names::lemma_text_total(a.name@, b.name@);
        }
        Rank::After
    }
}

/// Whether a list of series stands in strictly rising order.
pub open spec fn rising(list: Seq<MetricSeries>) -> bool {
    forall|i: int, j: int|
        0 <= i < j < list.len() ==> identity_before(#[trigger] list[i]@, #[trigger] list[j]@)
}

/// The series of a list.
pub open spec fn members(list: Seq<MetricSeries>) -> Set<MetricSeriesView> {
    Set::new(|identity: MetricSeriesView| exists|i: int| stands(list, identity, i))
}

/// Whether a series stands at a place of a list.
pub open spec fn stands(list: Seq<MetricSeries>, identity: MetricSeriesView, i: int) -> bool {
    0 <= i < list.len() && list[i]@ == identity
}

proof fn lemma_members_push(list: Seq<MetricSeries>, item: MetricSeries)
    ensures
        members(list.push(item)) == members(list).insert(item@),
{
    let longer = list.push(item);
    assert forall|identity: MetricSeriesView|
        members(longer).contains(identity) == members(list).insert(item@).contains(identity) by {
        if members(longer).contains(identity) {
            let i = choose|i: int| stands(longer, identity, i);
            if i < list.len() {
                assert(stands(list, identity, i));
            }
        }
        if members(list).contains(identity) {
            let i = choose|i: int| stands(list, identity, i);
            assert(stands(longer, identity, i));
        }
        if identity == item@ {
            assert(stands(longer, identity, list.len() as int));
        }
    }
    assert(members(longer) =~= members(list).insert(item@));
}

proof fn lemma_members_insert(list: Seq<MetricSeries>, at: int, item: MetricSeries)
    requires
        0 <= at <= list.len(),
    ensures
        members(list.insert(at, item)) == members(list).insert(item@),
{
    let longer = list.insert(at, item);
    assert forall|identity: MetricSeriesView|
        members(longer).contains(identity) == members(list).insert(item@).contains(identity) by {
        if members(longer).contains(identity) {
            let i = choose|i: int| stands(longer, identity, i);
            if i < at {
                assert(stands(list, identity, i));
            } else if i > at {
                assert(stands(list, identity, i - 1));
            }
        }
        if members(list).contains(identity) {
            let i = choose|i: int| stands(list, identity, i);
            if i < at {
                assert(stands(longer, identity, i));
            } else {
                assert(stands(longer, identity, i + 1));
            }
        }
        if identity == item@ {
            assert(stands(longer, identity, at));
        }
    }
    assert(members(longer) =~= members(list).insert(item@));
}

/// The series that were merged so far, in order and without repetition, with the bytes that they
/// and the metadata beside them are modeled to hold.
#[derive(Debug)]
pub struct SeriesUnion {
    merged: Vec<MetricSeries>,
    retained_bytes: u64,
    metadata_bytes: u64,
}

/// The bytes that the heap of a series is modeled to hold at least.
pub open spec fn identity_floor(identity: MetricSeries) -> nat {
    model::text_bytes(text::utf8_len(identity.name@)) as nat + transform::list_of::<Label>(
        identity.labels@.len(),
    ) + transform::labels_floor(identity.labels@)
}

/// The bytes that the heap of a series is modeled to hold, with the room its texts and list have.
pub fn modeled_metric_series_heap_retained_bytes(identity: &MetricSeries) -> (bytes: u64)
    ensures
        bytes >= sizes::sat64(identity_floor(*identity) as int),
{
    transform::modeled_text(&identity.name).saturating_add(
        transform::modeled_list(&identity.labels),
    ).saturating_add(transform::modeled_labels(&identity.labels))
}

/// The bytes that an entry for a series is modeled to take among the merged ones.
pub fn modeled_metric_series_set_entry_bytes(identity: &MetricSeries) -> (bytes: u64)
    ensures
        bytes >= sizes::sat64(
            layout::size_of::<MetricSeries>()
                + model::REMOTE_READ_COLLECTION_ALLOCATION_ALLOWANCE_BYTES + identity_floor(
                *identity,
            ),
        ),
{
    (core::mem::size_of::<MetricSeries>() as u64).saturating_add(
        model::REMOTE_READ_COLLECTION_ALLOCATION_ALLOWANCE_BYTES,
    ).saturating_add(modeled_metric_series_heap_retained_bytes(identity))
}

/// The bytes that a list of series is modeled to hold, with the room it has.
pub fn modeled_metric_series_vec_retained_bytes(list: &Vec<MetricSeries>) -> (bytes: u64)
    ensures
        bytes >= sizes::sat64(
            transform::list_of::<MetricSeries>(list@.len()) as int + sizes::total(
                Seq::new(list@.len(), |i: int| identity_floor(list@[i])),
            ),
        ),
{
    let ghost parts = Seq::new(list@.len(), |i: int| identity_floor(list@[i]));
    let mut bytes: u64 = 0;
    let mut i: usize = 0;
    while i < list.len()
        invariant
            i <= list@.len(),
            parts == Seq::new(list@.len(), |k: int| identity_floor(list@[k])),
            bytes >= sizes::sat64(sizes::total(parts.subrange(0, i as int)) as int),
        decreases list@.len() - i,
    {
        proof {
            sizes::lemma_total_step(parts, i as int);
        }
        bytes = bytes.saturating_add(modeled_metric_series_heap_retained_bytes(&list[i]));
        i = i + 1;
    }
    assert(parts.subrange(0, i as int) =~= parts);
    transform::modeled_list(list).saturating_add(bytes)
}

/// The bytes that the warnings beside a distributed answer are modeled to hold, with the room they
/// have.
pub fn modeled_read_metadata_heap_bytes(warnings: &Vec<String>) -> (bytes: u64)
    ensures
        bytes >= sizes::sat64(
            transform::list_of::<String>(warnings@.len()) as int + sizes::total(
                Seq::new(
                    warnings@.len(),
                    |i: int| model::text_bytes(text::utf8_len(warnings@[i]@)) as nat,
                ),
            ),
        ),
{
    let ghost parts = Seq::new(
        warnings@.len(),
        |i: int| model::text_bytes(text::utf8_len(warnings@[i]@)) as nat,
    );
    let mut bytes: u64 = 0;
    let mut i: usize = 0;
    while i < warnings.len()
        invariant
            i <= warnings@.len(),
            parts == Seq::new(
                warnings@.len(),
                |k: int| model::text_bytes(text::utf8_len(warnings@[k]@)) as nat,
            ),
            bytes >= sizes::sat64(sizes::total(parts.subrange(0, i as int)) as int),
        decreases warnings@.len() - i,
    {
        proof {
            sizes::lemma_total_step(parts, i as int);
        }
        bytes = bytes.saturating_add(transform::modeled_text(&warnings[i]));
        i = i + 1;
    }
    assert(parts.subrange(0, i as int) =~= parts);
    transform::modeled_list(warnings).saturating_add(bytes)
}

/// Whether merging metadata, whose bytes are then these, may be refused like this.
pub open spec fn merged_refused<
    R: Fn(u64) -> Result<(), QueryBudgetError>,
    M: FnOnce() -> u64,
>(merge: M, resize: R, refusal: QueryBudgetError) -> bool {
    exists|merged: u64| #[trigger]
        call_ensures(merge, (), merged) && budget::refused(resize, merged, refusal)
}

/// Holds the metadata of a distributed read against the query budget while it grows: the bytes that
/// are held before and those that were found are reserved together, then `merge` merges them and
/// gives the bytes that both take, and those are reserved. Nothing is merged where there is no room
/// for both.
pub fn hold_merged_metadata<R: Fn(u64) -> Result<(), QueryBudgetError>, M: FnOnce() -> u64>(
    before: u64,
    found: u64,
    merge: M,
    resize: &R,
) -> (held: Result<u64, QueryBudgetError>)
    requires
        call_requires(*resize, (sizes::sat64(before + found),)),
        budget::granted(*resize, sizes::sat64(before + found)) ==> call_requires(merge, ()),
        forall|merged: u64|
            budget::granted(*resize, sizes::sat64(before + found)) && call_ensures(
                merge,
                (),
                merged,
            ) ==> #[trigger] call_requires(*resize, (merged,)),
    ensures
        match held {
            Ok(merged) => {
                &&& budget::granted(*resize, sizes::sat64(before + found))
                &&& call_ensures(merge, (), merged)
                &&& budget::granted(*resize, merged)
            },
            Err(refusal) => {
                ||| budget::refused(*resize, sizes::sat64(before + found), refusal)
                ||| budget::granted(*resize, sizes::sat64(before + found)) && merged_refused(
                    merge,
                    *resize,
                    refusal,
                )
            },
        },
        budget::always_grants(*resize) ==> held is Ok,
{
    match resize(before.saturating_add(found)) {
        Err(error) => {
            return Err(error);
        },
        Ok(_) => {},
    }
    let merged = merge();
    proof {
        assert(call_ensures(merge, (), merged));
    }
    match resize(merged) {
        Err(error) => {
            proof {
                assert(merged_refused(merge, *resize, error));
            }
            Err(error)
        },
        Ok(_) => Ok(merged),
    }
}

/// What is wrong with what a node says it holds reserved for the series that it selected.
pub open spec fn source_problem(reserved: Option<u64>, len: nat) -> Option<Seq<char>> {
    execution::reservation_problem(
        reserved,
        len,
        "completely accounted distributed remote-read metadata omitted its result reservation"@,
        "completely accounted distributed remote-read metadata retained zero bytes for a non-empty result"@,
    )
}

fn check_source(reserved: Option<u64>, len: usize) -> (checked: Result<(), ReadFanoutError>)
    ensures
        match source_problem(reserved, len as nat) {
            None => checked is Ok,
            Some(problem) => checked matches Err(error) && error.says_invalid(problem),
        },
{
    match reserved {
        None => Err(
            ReadFanoutError::InvalidRequest {
                message: text::owned(
                    "completely accounted distributed remote-read metadata omitted its result reservation",
                ),
            },
        ),
        Some(bytes) => {
            if len > 0 && bytes == 0 {
                Err(
                    ReadFanoutError::InvalidRequest {
                        message: text::owned(
                            "completely accounted distributed remote-read metadata retained zero bytes for a non-empty result",
                        ),
                    },
                )
            } else {
                Ok(())
            }
        },
    }
}

/// Whether a refusal by the query budget is warranted.
pub open spec fn union_refusal<
    C: Fn() -> Result<(), QueryBudgetError>,
    R: Fn(u64) -> Result<(), QueryBudgetError>,
>(checkpoint: C, resize: R, error: QueryBudgetError) -> bool {
    ||| budget::may_stop(checkpoint, error)
    ||| exists|amount: u64| #[trigger] budget::refused(resize, amount, error)
}

/// The least that an entry for a series is modeled to take among the merged ones.
pub open spec fn entry_floor(identity: MetricSeries) -> nat {
    layout::size_of::<MetricSeries>() + model::REMOTE_READ_COLLECTION_ALLOCATION_ALLOWANCE_BYTES
        as nat + identity_floor(identity)
}

/// The least that entries for series are modeled to take among the merged ones.
pub open spec fn entries_floor(list: Seq<MetricSeries>) -> nat {
    sizes::total(Seq::new(list.len(), |i: int| entry_floor(list[i])))
}

/// One more entry takes its own bytes more.
proof fn lemma_entries_insert(list: Seq<MetricSeries>, at: int, identity: MetricSeries)
    requires
        0 <= at <= list.len(),
    ensures
        entries_floor(list.insert(at, identity)) == entries_floor(list) + entry_floor(identity),
{
    let parts = Seq::new(list.len(), |i: int| entry_floor(list[i]));
    let longer = list.insert(at, identity);
    assert(Seq::new(longer.len(), |i: int| entry_floor(longer[i])) =~= parts.insert(
        at,
        entry_floor(identity),
    ));
    sizes::lemma_total_insert(parts, at, entry_floor(identity));
}

impl SeriesUnion {
    /// The series that were merged.
    pub closed spec fn listed(self) -> Seq<MetricSeries> {
        self.merged@
    }

    /// The bytes that the merged series are modeled to hold.
    pub closed spec fn retained(self) -> u64 {
        self.retained_bytes
    }

    /// The bytes that the merged metadata is modeled to hold.
    pub closed spec fn metadata(self) -> u64 {
        self.metadata_bytes
    }

    /// The series stand in strictly rising order, and their bytes are counted.
    #[verifier::type_invariant]
    spec fn in_order(self) -> bool {
        &&& rising(self.merged@)
        &&& self.retained_bytes >= sizes::sat64(entries_floor(self.merged@) as int)
    }

    /// Nothing merged yet.
    pub fn new() -> (union: SeriesUnion)
        ensures
            union.listed() == Seq::<MetricSeries>::empty(),
            union.retained() == 0,
            union.metadata() == 0,
    {
        proof {
            assert(Seq::new(0, |i: int| entry_floor(Seq::<MetricSeries>::empty()[i]))
                =~= Seq::<nat>::empty());
        }
        SeriesUnion { merged: Vec::new(), retained_bytes: 0, metadata_bytes: 0 }
    }

    /// Where a series stands or belongs.
    fn place(&self, identity: &MetricSeries) -> (found: Result<usize, usize>)
        ensures
            match found {
                Ok(at) => stands(self.listed(), identity@, at as int),
                Err(at) => {
                    &&& at <= self.listed().len()
                    &&& !members(self.listed()).contains(identity@)
                    &&& forall|i: int|
                        0 <= i < at ==> identity_before(#[trigger] self.listed()[i]@, identity@)
                    &&& forall|i: int|
                        at <= i < self.listed().len() ==> identity_before(
                            identity@,
                            #[trigger] self.listed()[i]@,
                        )
                },
            },
    {
        proof {
            use_type_invariant(self);
        }
        let mut low: usize = 0;
        let mut high: usize = self.merged.len();
        while low < high
            invariant
                low <= high <= self.merged@.len(),
                rising(self.merged@),
                forall|i: int|
                    0 <= i < low ==> identity_before(#[trigger] self.merged@[i]@, identity@),
                forall|i: int|
                    high <= i < self.merged@.len() ==> identity_before(
                        identity@,
                        #[trigger] self.merged@[i]@,
                    ),
            decreases high - low,
        {
            let middle: usize = low + (high - low) / 2;
            match rank_identities(&self.merged[middle], identity) {
                Rank::Same => {
                    return Ok(middle);
                },
                Rank::Before => {
                    proof {
                        assert forall|i: int| 0 <= i < middle implies identity_before(
                            #[trigger] self.merged@[i]@,
                            identity@,
                        ) by {
                            lemma_identity_transitive(
                                self.merged@[i]@,
                                self.merged@[middle as int]@,
                                identity@,
                            );
                        }
                    }
                    low = middle + 1;
                },
                Rank::After => {
                    proof {
                        assert forall|i: int|
                            middle < i < self.merged@.len() implies identity_before(
                            identity@,
                            #[trigger] self.merged@[i]@,
                        ) by {
                            lemma_identity_transitive(
                                identity@,
                                self.merged@[middle as int]@,
                                self.merged@[i]@,
                            );
                        }
                    }
                    high = middle;
                },
            }
        }
        proof {
            if members(self.merged@).contains(identity@) {
                let i = choose|i: int| stands(self.merged@, identity@, i);
                lemma_identity_irreflexive(identity@);
            }
        }
        Err(low)
    }

    fn put(&mut self, at: usize, identity: MetricSeries, retained: u64)
        requires
            at <= old(self).listed().len(),
            forall|i: int|
                0 <= i < at ==> identity_before(#[trigger] old(self).listed()[i]@, identity@),
            forall|i: int|
                at <= i < old(self).listed().len() ==> identity_before(
                    identity@,
                    #[trigger] old(self).listed()[i]@,
                ),
            retained >= sizes::sat64(old(self).retained() + entry_floor(identity)),
        ensures
            final(self).listed() == old(self).listed().insert(at as int, identity),
            final(self).retained() == retained,
            final(self).metadata() == old(self).metadata(),
    {
        proof {
            use_type_invariant(&*self);
            lemma_entries_insert(self.merged@, at as int, identity);
        }
        let mut list: Vec<MetricSeries> = Vec::new();
        let metadata_bytes = self.metadata_bytes;
        core::mem::swap(&mut self.merged, &mut list);
        list.insert(at, identity);
        *self = SeriesUnion { merged: list, retained_bytes: retained, metadata_bytes };
    }

    /// Merges the series that one node selected, with the bytes it holds reserved for them, and the
    /// modeled bytes of its metadata: `merge_metadata` merges the metadata, once there is room for
    /// it, and gives the bytes that it then takes, `checkpoint` asks whether to go on, and `resize`
    /// changes what is reserved for the union.
    pub fn merge<
        C: Fn() -> Result<(), QueryBudgetError>,
        R: Fn(u64) -> Result<(), QueryBudgetError>,
        M: FnOnce() -> u64,
    >(
        &mut self,
        selected: Vec<MetricSeries>,
        reserved: Option<u64>,
        response_metadata_bytes: u64,
        merge_metadata: M,
        checkpoint: &C,
        resize: &R,
    ) -> (merged: Result<(), ReadFanoutError>)
        requires
            call_requires(*checkpoint, ()),
            forall|bytes: u64| call_requires(*resize, (bytes,)),
            budget::granted(
                *resize,
                sizes::sat64(
                    old(self).retained() + old(self).metadata() + response_metadata_bytes,
                ),
            ) ==> call_requires(merge_metadata, ()),
        ensures
            match merged {
                Ok(_) => {
                    &&& source_problem(reserved, selected@.len()) is None
                    &&& members(final(self).listed()) == members(old(self).listed()).union(
                        members(selected@),
                    )
                    &&& call_ensures(merge_metadata, (), final(self).metadata())
                    &&& final(self).retained() >= sizes::sat64(
                        entries_floor(final(self).listed()) as int,
                    )
                    &&& budget::granted(
                        *resize,
                        sizes::sat64(
                            old(self).retained() + old(self).metadata() + response_metadata_bytes,
                        ),
                    )
                    &&& budget::granted(
                        *resize,
                        sizes::sat64(final(self).retained() + final(self).metadata()),
                    )
                },
                Err(error) => {
                    &&& members(old(self).listed()).subset_of(members(final(self).listed()))
                    &&& members(final(self).listed()).subset_of(
                        members(old(self).listed()).union(members(selected@)),
                    )
                    &&& {
                        ||| (error matches ReadFanoutError::QueryBudget { error: refusal }
                            && union_refusal(*checkpoint, *resize, refusal))
                        ||| (source_problem(reserved, selected@.len()) matches Some(problem)
                            && error.says_invalid(problem) && final(self).listed() == old(
                            self,
                        ).listed())
                    }
                },
            },
            budget::never_stops(*checkpoint) && budget::always_grants(*resize) ==> (merged is Ok
                <==> source_problem(reserved, selected@.len()) is None),
            budget::always_stops(*checkpoint) && selected@.len() > 0 && source_problem(
                reserved,
                selected@.len(),
            ) is None ==> {
                &&& merged matches Err(ReadFanoutError::QueryBudget { error }) && (
                budget::may_stop(*checkpoint, error) || exists|bytes: u64| #[trigger]
                    budget::refused(*resize, bytes, error))
                &&& budget::always_grants(*resize) ==> (merged matches Err(
                    ReadFanoutError::QueryBudget { error },
                ) && budget::may_stop(*checkpoint, error))
                &&& final(self).listed() == old(self).listed()
            },
    {
        let ghost before = self.listed();
        let ghost all = selected@;
        let first = self.retained_bytes.saturating_add(self.metadata_bytes).saturating_add(
            response_metadata_bytes,
        );
        match resize(first) {
            Err(error) => {
                proof {
                    assert(budget::refused(*resize, first, error));
                }
                return Err(ReadFanoutError::QueryBudget { error });
            },
            Ok(_) => {},
        }
        proof {
            assert(budget::granted(*resize, first));
        }
        let merged_metadata_bytes = merge_metadata();
        self.note_metadata(merged_metadata_bytes);
        let second = self.retained_bytes.saturating_add(merged_metadata_bytes);
        match resize(second) {
            Err(error) => {
                proof {
                    assert(budget::refused(*resize, second, error));
                }
                return Err(ReadFanoutError::QueryBudget { error });
            },
            Ok(_) => {},
        }
        match check_source(reserved, selected.len()) {
            Err(error) => {
                return Err(error);
            },
            Ok(_) => {},
        }
        proof {
            assert(budget::granted(*resize, second));
        }
        let mut left = stable::reversed(selected);
        let ghost mut taken = Seq::<MetricSeries>::empty();
        proof {
            assert(members(taken) =~= Set::empty());
            assert(members(before).union(members(taken)) =~= members(before));
        }
        while left.len() > 0
            invariant
                call_requires(*checkpoint, ()),
                forall|bytes: u64| call_requires(*resize, (bytes,)),
                budget::always_stops(*checkpoint) ==> taken.len() == 0 && self.listed() == before,
                before == old(self).listed(),
                source_problem(reserved, selected@.len()) is None,
                all == selected@,
                taken.len() + left@.len() == all.len(),
                forall|i: int|
                    0 <= i < left@.len() ==> #[trigger] left@[i] == all[all.len() - 1 - i],
                forall|i: int| 0 <= i < taken.len() ==> #[trigger] taken[i] == all[i],
                self.metadata() == merged_metadata_bytes,
                call_ensures(merge_metadata, (), merged_metadata_bytes),
                budget::granted(*resize, first),
                first == sizes::sat64(
                    old(self).retained() + old(self).metadata() + response_metadata_bytes,
                ),
                budget::granted(*resize, sizes::sat64(self.retained() + self.metadata())),
                members(self.listed()) == members(before).union(members(taken)),
                members(before) == members(old(self).listed()),
            decreases left@.len(),
        {
            proof {
                lemma_taken_among(all, taken);
            }
            match checkpoint() {
                Err(error) => {
                    return Err(ReadFanoutError::QueryBudget { error });
                },
                Ok(_) => {},
            }
            match left.pop() {
                None => {},
                Some(identity) => {
                    let ghost value = identity@;
                    let ghost then = self.listed();
                    match self.place(&identity) {
                        Ok(at) => {
                            proof {
                                lemma_members_push(taken, identity);
                                assert(stands(then, value, at as int));
                                assert(members(then).contains(value));
                                assert(members(before).union(members(taken.push(identity)))
                                    =~= members(before).union(members(taken)));
                                taken = taken.push(identity);
                            }
                        },
                        Err(at) => {
                            let next = self.retained_bytes.saturating_add(
                                modeled_metric_series_set_entry_bytes(&identity),
                            );
                            let wanted = next.saturating_add(self.metadata_bytes);
                            match resize(wanted) {
                                Err(error) => {
                                    proof {
                                        assert(budget::refused(*resize, wanted, error));
                                    }
                                    return Err(ReadFanoutError::QueryBudget { error });
                                },
                                Ok(_) => {},
                            }
                            proof {
                                assert(budget::granted(*resize, wanted));
                                lemma_members_insert(then, at as int, identity);
                                lemma_members_push(taken, identity);
                                assert(members(before).union(members(taken.push(identity)))
                                    =~= members(before).union(members(taken)).insert(value));
                                taken = taken.push(identity);
                            }
                            self.put(at, identity, next);
                        },
                    }
                },
            }
        }
        proof {
            lemma_taken_among(all, taken);
            assert(members(taken) =~= members(all)) by {
                assert forall|identity: MetricSeriesView| #[trigger] members(all).contains(
                    identity,
                ) implies members(taken).contains(identity) by {
                    let i = choose|i: int| stands(all, identity, i);
                    assert(taken[i] == all[i]);
                    assert(stands(taken, identity, i));
                }
            }
            use_type_invariant(&*self);
        }
        Ok(())
    }

    fn note_metadata(&mut self, bytes: u64)
        ensures
            final(self).listed() == old(self).listed(),
            final(self).retained() == old(self).retained(),
            final(self).metadata() == bytes,
    {
        proof {
            use_type_invariant(&*self);
        }
        self.metadata_bytes = bytes;
    }

    /// The merged series, each once and in order: `resize` changes what is reserved for them.
    pub fn finish<R: Fn(u64) -> Result<(), QueryBudgetError>>(self, resize: &R) -> (finished: Result<
        Vec<MetricSeries>,
        ReadFanoutError,
    >)
        requires
            forall|bytes: u64| call_requires(*resize, (bytes,)),
        ensures
            match finished {
                Ok(list) => {
                    &&& rising(list@)
                    &&& members(list@) == members(self.listed())
                    &&& budget::granted(
                        *resize,
                        sizes::sat64(
                            self.retained() + transform::list_of::<MetricSeries>(list@.len())
                                + self.metadata(),
                        ),
                    )
                    &&& exists|held: u64|
                        held >= sizes::sat64(
                            transform::list_of::<MetricSeries>(list@.len()) as int + sizes::total(
                                Seq::new(list@.len(), |i: int| identity_floor(list@[i])),
                            ),
                        ) && #[trigger] budget::granted(
                            *resize,
                            sizes::sat64(held + self.metadata()),
                        )
                },
                Err(error) => error matches ReadFanoutError::QueryBudget { error: refusal }
                    && exists|amount: u64| #[trigger] budget::refused(*resize, amount, refusal),
            },
            budget::always_grants(*resize) ==> finished is Ok,
    {
        proof {
            use_type_invariant(&self);
        }
        let slots = model::modeled_vec_capacity_bytes::<MetricSeries>(self.merged.len());
        let first = self.retained_bytes.saturating_add(slots).saturating_add(self.metadata_bytes);
        match resize(first) {
            Err(error) => {
                proof {
                    assert(budget::refused(*resize, first, error));
                }
                return Err(ReadFanoutError::QueryBudget { error });
            },
            Ok(_) => {},
        }
        proof {
            assert(budget::granted(*resize, first));
        }
        let held = modeled_metric_series_vec_retained_bytes(&self.merged);
        let second = held.saturating_add(self.metadata_bytes);
        match resize(second) {
            Err(error) => {
                proof {
                    assert(budget::refused(*resize, second, error));
                }
                return Err(ReadFanoutError::QueryBudget { error });
            },
            Ok(_) => {},
        }
        proof {
            assert(second == sizes::sat64(held + self.metadata()));
            assert(budget::granted(*resize, sizes::sat64(held + self.metadata())));
        }
        Ok(self.merged)
    }
}

proof fn lemma_taken_among(all: Seq<MetricSeries>, taken: Seq<MetricSeries>)
    requires
        taken.len() <= all.len(),
        forall|i: int| 0 <= i < taken.len() ==> #[trigger] taken[i] == all[i],
    ensures
        members(taken).subset_of(members(all)),
{
    assert forall|identity: MetricSeriesView| members(taken).contains(
        identity,
    ) implies #[trigger] members(all).contains(identity) by {
        let i = choose|i: int| stands(taken, identity, i);
        assert(stands(all, identity, i));
    }
}

} // verus!
