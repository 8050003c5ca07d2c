//! Preparing a query of a remote read for a cluster.

use vstd::layout;
use vstd::prelude::*;

use crate::budget;
use crate::budget::QueryBudgetError;
use crate::names;
use crate::remote_read::errors::ReadFanoutError;
use crate::remote_read::execution;
use crate::remote_read::execution::SeriesMatcher;
use crate::remote_read::execution::SeriesSelection;
use crate::remote_read::model;
use crate::remote_read::request::LabelMatcher;
use crate::remote_read::request::Query;
use crate::remote_read::transform;
use crate::sizes;
use crate::text;

verus! {

/// The tenant that owns series without a tenant, and the label that names the tenant of a series.
#[derive(Debug)]
pub struct TenantNames {
    pub default_tenant: String,
    pub tenant_label: String,
}

/// The bytes of the texts of a matcher.
pub open spec fn matcher_texts(matcher: SeriesMatcher) -> nat {
    model::text_bytes(text::utf8_len(matcher.name@)) as nat + model::text_bytes(
        text::utf8_len(matcher.value@),
    ) as nat
}

/// The bytes of the texts of matchers.
pub open spec fn matchers_texts(matchers: Seq<SeriesMatcher>) -> nat {
    sizes::total(Seq::new(matchers.len(), |i: int| matcher_texts(matchers[i])))
}

/// The bytes of the text of a metric, if there is one.
pub open spec fn metric_text(metric: Option<String>) -> nat {
    match metric {
        Some(name) => model::text_bytes(text::utf8_len(name@)) as nat,
        None => 0,
    }
}

/// The bytes of a copy of a selection with one more matcher, on a tenant.
pub open spec fn scoped_selection_bytes(
    selection: SeriesSelection,
    tenant_label: Seq<char>,
    tenant: Seq<char>,
) -> nat {
    metric_text(selection.metric) + matchers_texts(selection.matchers@) + model::list_bytes(
        model::grown_room(sizes::sat_size(selection.matchers@.len() as int + 1) as nat) as nat,
        layout::size_of::<SeriesMatcher>(),
    ) as nat + model::text_bytes(text::utf8_len(tenant_label)) as nat + model::text_bytes(
        text::utf8_len(tenant),
    ) as nat
}

/// The most that the selections of a tenant are modeled to take: one for the tenant, and for the
/// default tenant one more, for series that name no tenant.
pub open spec fn tenant_selections_upper(
    selection: SeriesSelection,
    tenant_id: Seq<char>,
    default_tenant: Seq<char>,
    tenant_label: Seq<char>,
) -> u64 {
    let own = scoped_selection_bytes(selection, tenant_label, tenant_id);
    if tenant_id == default_tenant {
        sizes::sat64(
            transform::list_of::<SeriesSelection>(2) as int + own + scoped_selection_bytes(
                selection,
                tenant_label,
                ".+"@,
            ),
        )
    } else {
        sizes::sat64(transform::list_of::<SeriesSelection>(1) as int + own)
    }
}

fn modeled_matcher_texts(matchers: &Vec<SeriesMatcher>) -> (bytes: u64)
    ensures
        bytes == sizes::sat64(matchers_texts(matchers@) as int),
{
    let ghost parts = Seq::new(matchers@.len(), |i: int| matcher_texts(matchers@[i]));
    let mut bytes: u64 = 0;
    let mut i: usize = 0;
    while i < matchers.len()
        invariant
            i <= matchers@.len(),
            parts == Seq::new(matchers@.len(), |k: int| matcher_texts(matchers@[k])),
            bytes == sizes::sat64(sizes::total(parts.subrange(0, i as int)) as int),
        decreases matchers@.len() - i,
    {
        proof {
            sizes::lemma_total_step(parts, i as int);
        }
        bytes =
        bytes.saturating_add(
            model::modeled_owned_str_bytes(matchers[i].name.as_str()),
        ).saturating_add(model::modeled_owned_str_bytes(matchers[i].value.as_str()));
        i = i + 1;
    }
    assert(parts.subrange(0, i as int) =~= parts);
    bytes
}

fn modeled_scoped_selection(selection: &SeriesSelection, tenant_label: &str, tenant: &str) -> (bytes:
    u64)
    ensures
        bytes == sizes::sat64(
            scoped_selection_bytes(*selection, tenant_label@, tenant@) as int,
        ),
{
    let metric = match &selection.metric {
        Some(name) => model::modeled_owned_str_bytes(name.as_str()),
        None => 0,
    };
    metric.saturating_add(modeled_matcher_texts(&selection.matchers)).saturating_add(
        model::modeled_vec_capacity_bytes::<SeriesMatcher>(
            model::protobuf_growth_capacity_upper(selection.matchers.len().saturating_add(1)),
        ),
    ).saturating_add(model::modeled_owned_str_bytes(tenant_label)).saturating_add(
        model::modeled_owned_str_bytes(tenant),
    )
}

/// The most that the selections of a tenant are modeled to take.
pub fn modeled_tenant_selections_upper_bytes(
    selection: &SeriesSelection,
    tenant_id: &str,
    tenants: &TenantNames,
) -> (bytes: u64)
    ensures
        bytes == tenant_selections_upper(
            *selection,
            tenant_id@,
            tenants.default_tenant@,
            tenants.tenant_label@,
        ),
{
    let own = modeled_scoped_selection(selection, tenants.tenant_label.as_str(), tenant_id);
    if names::same_text(tenant_id, tenants.default_tenant.as_str()) {
        model::modeled_vec_capacity_bytes::<SeriesSelection>(2).saturating_add(own).saturating_add(
            modeled_scoped_selection(selection, tenants.tenant_label.as_str(), ".+"),
        )
    } else {
        model::modeled_vec_capacity_bytes::<SeriesSelection>(1).saturating_add(own)
    }
}

/// The least that the heap of a selection is modeled to hold.
pub open spec fn selection_floor(selection: SeriesSelection) -> nat {
    metric_text(selection.metric) + transform::list_of::<SeriesMatcher>(selection.matchers@.len())
        + matchers_texts(selection.matchers@)
}

fn modeled_held_matchers(matchers: &Vec<SeriesMatcher>) -> (bytes: u64)
    ensures
        bytes >= sizes::sat64(matchers_texts(matchers@) as int),
{
    let ghost parts = Seq::new(matchers@.len(), |i: int| matcher_texts(matchers@[i]));
    let mut bytes: u64 = 0;
    let mut i: usize = 0;
    while i < matchers.len()
        invariant
            i <= matchers@.len(),
            parts == Seq::new(matchers@.len(), |k: int| matcher_texts(matchers@[k])),
            bytes >= sizes::sat64(sizes::total(parts.subrange(0, i as int)) as int),
        decreases matchers@.len() - i,
    {
        proof {
            sizes::lemma_total_step(parts, i as int);
        }
        bytes =
        bytes.saturating_add(transform::modeled_text(&matchers[i].name)).saturating_add(
            transform::modeled_text(&matchers[i].value),
        );
        i = i + 1;
    }
    assert(parts.subrange(0, i as int) =~= parts);
    bytes
}

/// The bytes that the heap of a selection is modeled to hold, with the room it has.
pub fn modeled_series_selection_heap_bytes(selection: &SeriesSelection) -> (bytes: u64)
    ensures
        bytes >= sizes::sat64(selection_floor(*selection) as int),
{
    let metric = match &selection.metric {
        Some(name) => transform::modeled_text(name),
        None => 0,
    };
    metric.saturating_add(transform::modeled_list(&selection.matchers)).saturating_add(
        modeled_held_matchers(&selection.matchers),
    )
}

/// The bytes that selections are modeled to hold without spare room.
pub open spec fn selections_floor(selections: Seq<SeriesSelection>) -> u64 {
    sizes::sat64(
        transform::list_of::<SeriesSelection>(selections.len()) as int + sizes::total(
            Seq::new(selections.len(), |i: int| selection_floor(selections[i])),
        ),
    )
}

/// The bytes that selections are modeled to hold, with the room they have.
pub fn modeled_tenant_selections_retained_bytes(selections: &Vec<SeriesSelection>) -> (bytes: u64)
    ensures
        bytes >= selections_floor(selections@),
{
    let ghost parts = Seq::new(selections@.len(), |i: int| selection_floor(selections@[i]));
    let mut bytes: u64 = 0;
    let mut i: usize = 0;
    while i < selections.len()
        invariant
            i <= selections@.len(),
            parts == Seq::new(selections@.len(), |k: int| selection_floor(selections@[k])),
            bytes >= sizes::sat64(sizes::total(parts.subrange(0, i as int)) as int),
        decreases selections@.len() - i,
    {
        proof {
            sizes::lemma_total_step(parts, i as int);
        }
        bytes = bytes.saturating_add(modeled_series_selection_heap_bytes(&selections[i]));
        i = i + 1;
    }
    assert(parts.subrange(0, i as int) =~= parts);
    transform::modeled_list(selections).saturating_add(bytes)
}

/// Whether an error says that the matchers of a query are wrong.
pub open spec fn says_bad_matchers(error: ReadFanoutError, message: Seq<char>) -> bool {
    error.says_invalid("invalid remote-read matchers: "@ + message)
}

/// Whether changing a reservation to what selections hold was refused like this.
pub open spec fn refused_for<Z: Fn(u64) -> Result<(), QueryBudgetError>>(
    resize: Z,
    amount: u64,
    selections: Vec<SeriesSelection>,
    refusal: QueryBudgetError,
) -> bool {
    amount >= selections_floor(selections@) && budget::refused(resize, amount, refusal)
}

/// Whether the selections of a tenant may be these.
pub open spec fn may_scope<
    B: FnOnce(&Vec<LabelMatcher>) -> Result<SeriesSelection, String>,
    T: FnOnce(&SeriesSelection) -> Result<Vec<SeriesSelection>, String>,
>(query: Query, build: B, scope: T, selections: Vec<SeriesSelection>) -> bool {
    exists|selection: SeriesSelection| #[trigger]
        execution::may_build(build, query, selection) && call_ensures(
            scope,
            (&selection,),
            Ok::<Vec<SeriesSelection>, String>(selections),
        )
}

/// Whether the selections of a tenant may be these, and were paid for: what making them may take
/// was reserved, and the reservation was changed to no less than what they hold.
pub open spec fn scoped_and_paid<
    B: FnOnce(&Vec<LabelMatcher>) -> Result<SeriesSelection, String>,
    T: FnOnce(&SeriesSelection) -> Result<Vec<SeriesSelection>, String>,
    R: Fn(u64) -> Result<(), QueryBudgetError>,
    Z: Fn(u64) -> Result<(), QueryBudgetError>,
>(
    query: Query,
    tenant: Seq<char>,
    tenants: TenantNames,
    build: B,
    scope: T,
    reserve: R,
    resize: Z,
    selections: Vec<SeriesSelection>,
) -> bool {
    &&& budget::granted(reserve, execution::selection_upper(query.matchers@))
    &&& exists|selection: SeriesSelection| #[trigger]
        execution::may_build(build, query, selection) && budget::granted(
            reserve,
            tenant_selections_upper(
                selection,
                tenant,
                tenants.default_tenant@,
                tenants.tenant_label@,
            ),
        ) && call_ensures(scope, (&selection,), Ok::<Vec<SeriesSelection>, String>(selections))
    &&& exists|bytes: u64| #[trigger]
        budget::granted(resize, bytes) && bytes >= selections_floor(selections@)
}

/// Prepares a query for a cluster: `build` makes its selection and `scope` makes of it those of the
/// tenant; the other three are the query budget's.
pub fn prepare_distributed_query<
    B: FnOnce(&Vec<LabelMatcher>) -> Result<SeriesSelection, String>,
    T: FnOnce(&SeriesSelection) -> Result<Vec<SeriesSelection>, String>,
    C: Fn() -> Result<(), QueryBudgetError>,
    R: Fn(u64) -> Result<(), QueryBudgetError>,
    Z: Fn(u64) -> Result<(), QueryBudgetError>,
>(
    query: &Query,
    tenant_id: &str,
    tenants: &TenantNames,
    build: B,
    scope: T,
    checkpoint: &C,
    reserve: &R,
    resize: &Z,
) -> (prepared: Result<Vec<SeriesSelection>, ReadFanoutError>)
    requires
        call_requires(*checkpoint, ()),
        forall|bytes: u64|
            budget::may_pass(*checkpoint) ==> #[trigger] call_requires(*reserve, (bytes,)),
        forall|bytes: u64|
            budget::may_pass(*checkpoint) ==> #[trigger] call_requires(*resize, (bytes,)),
        budget::may_pass(*checkpoint) && budget::granted(
            *reserve,
            execution::selection_upper(query.matchers@),
        ) ==> call_requires(build, (&query.matchers,)),
        forall|selection: &SeriesSelection|
            budget::may_pass(*checkpoint) && execution::may_build(build, *query, *selection)
                && budget::granted(
                *reserve,
                tenant_selections_upper(
                    *selection,
                    tenant_id@,
                    tenants.default_tenant@,
                    tenants.tenant_label@,
                ),
            ) ==> #[trigger] call_requires(scope, (selection,)),
    ensures
        match prepared {
            Ok(selections) => {
                &&& may_scope(*query, build, scope, selections)
                &&& scoped_and_paid(
                    *query,
                    tenant_id@,
                    *tenants,
                    build,
                    scope,
                    *reserve,
                    *resize,
                    selections,
                )
            },
            Err(error) => {
                ||| (error matches ReadFanoutError::QueryBudget { error: refusal } && {
                    ||| budget::may_stop(*checkpoint, refusal)
                    ||| budget::refused(
                        *reserve,
                        execution::selection_upper(query.matchers@),
                        refusal,
                    )
                    ||| exists|selection: SeriesSelection| #[trigger]
                        execution::may_build(build, *query, selection) && budget::refused(
                            *reserve,
                            tenant_selections_upper(
                                selection,
                                tenant_id@,
                                tenants.default_tenant@,
                                tenants.tenant_label@,
                            ),
                            refusal,
                        )
                    ||| exists|amount: u64, selections: Vec<SeriesSelection>|
                        may_scope(*query, build, scope, selections) && #[trigger] refused_for(*resize, amount, selections, refusal)
                })
                ||| exists|message: String| #[trigger]
                    call_ensures(
                        build,
                        (&query.matchers,),
                        Err::<SeriesSelection, String>(message),
                    ) && says_bad_matchers(error, message@)
                ||| exists|selection: SeriesSelection, message: String|
                    execution::may_build(build, *query, selection) && #[trigger] call_ensures(
                        scope,
                        (&selection,),
                        Err::<Vec<SeriesSelection>, String>(message),
                    ) && says_bad_matchers(error, message@)
            },
        },
        budget::never_stops(*checkpoint) && budget::always_grants(*reserve)
            && budget::always_grants(*resize) && (forall|outcome: Result<SeriesSelection, String>|
            call_ensures(build, (&query.matchers,), outcome) ==> outcome is Ok) && (forall|
            selection: &SeriesSelection,
            outcome: Result<Vec<SeriesSelection>, String>,
        |
            #[trigger] call_ensures(scope, (selection,), outcome) ==> outcome is Ok)
            ==> prepared is Ok,
        budget::always_stops(*checkpoint) ==> (prepared matches Err(
            ReadFanoutError::QueryBudget { error },
        ) && budget::may_stop(*checkpoint, error)),
{
    match checkpoint() {
        Err(error) => {
            return Err(ReadFanoutError::QueryBudget { error });
        },
        Ok(_) => {},
    }
    match reserve(execution::modeled_remote_matcher_selection_upper_bytes(&query.matchers)) {
        Err(error) => {
            return Err(ReadFanoutError::QueryBudget { error });
        },
        Ok(_) => {},
    }
    let selection = match build(&query.matchers) {
        Err(message) => {
            proof {
                assert(call_ensures(
                    build,
                    (&query.matchers,),
                    Err::<SeriesSelection, String>(message),
                ));
            }
            return Err(
                ReadFanoutError::InvalidRequest {
                    message: text::text2("invalid remote-read matchers: ", message.as_str()),
                },
            );
        },
        Ok(selection) => selection,
    };
    proof {
        assert(execution::may_build(build, *query, selection));
    }
    match reserve(modeled_tenant_selections_upper_bytes(&selection, tenant_id, tenants)) {
        Err(error) => {
            return Err(ReadFanoutError::QueryBudget { error });
        },
        Ok(_) => {},
    }
    let selections = match scope(&selection) {
        Err(message) => {
            proof {
                assert(call_ensures(
                    scope,
                    (&selection,),
                    Err::<Vec<SeriesSelection>, String>(message),
                ));
            }
            return Err(
                ReadFanoutError::InvalidRequest {
                    message: text::text2("invalid remote-read matchers: ", message.as_str()),
                },
            );
        },
        Ok(selections) => selections,
    };
    proof {
        assert(may_scope(*query, build, scope, selections));
    }
    let held = modeled_tenant_selections_retained_bytes(&selections);
    match resize(held) {
        Err(error) => {
            proof {
                assert(refused_for(*resize, held, selections, error));
            }
            return Err(ReadFanoutError::QueryBudget { error });
        },
        Ok(_) => {},
    }
    proof {
        assert(budget::granted(*resize, held));
    }
    Ok(selections)
}

} // verus!
