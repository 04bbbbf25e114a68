//! The in-memory result store: one record per distinct name ever submitted,
//! with an independent lookup slot for each of the two services.
//!
//! A name is tracked from the first time it is submitted and is never
//! forgotten. Its slots move from `Loading` to `Success` or `Error` as the
//! bulk requests complete. A failed lookup is deliberately not retried:
//! submitting a tracked name again starts no new request, whatever the state
//! of its slots. A name that a successful response leaves out stays
//! `Loading`.

use vstd::prelude::*;

use crate::api::{error_message, name_views, summary_label, ApiError, CountryResult, GenderResult};
use crate::errors::{published_once, ErrorQueue};
use crate::remote::Remote;

verus! {

/// What a bulk request hands back: the result of each name the service
/// answered for, in the order of its response, or one error for the whole
/// request.
pub type ApiResult<T> = Result<Vec<(String, T)>, ApiError>;

/// The names of `input` that are neither in `known` nor earlier in `input`,
/// in input order.
pub open spec fn fresh_names(known: Seq<Seq<char>>, input: Seq<Seq<char>>) -> Seq<Seq<char>>
    decreases input.len(),
{
    if input.len() == 0 {
        Seq::empty()
    } else {
        let prev = fresh_names(known, input.drop_last());
        if known.contains(input.last()) || prev.contains(input.last()) {
            prev
        } else {
            prev.push(input.last())
        }
    }
}

/// A column of slots after the slot of `name` is set to `value`; a column
/// without that name is unchanged.
pub open spec fn column_set<T>(
    names: Seq<Seq<char>>,
    column: Seq<Remote<T>>,
    name: Seq<char>,
    value: Remote<T>,
) -> Seq<Remote<T>> {
    Seq::new(column.len(), |i: int| if names[i] == name { value } else { column[i] })
}

/// A column of slots after each answered name, in response order, has been
/// set to its result; a later answer for the same name wins.
pub open spec fn with_successes<T>(
    names: Seq<Seq<char>>,
    column: Seq<Remote<T>>,
    results: Seq<(Seq<char>, T)>,
) -> Seq<Remote<T>>
    decreases results.len(),
{
    if results.len() == 0 {
        column
    } else {
        column_set(
            names,
            with_successes(names, column, results.drop_last()),
            results.last().0,
            Remote::Success(results.last().1),
        )
    }
}

/// A column of slots after every name of a failed request has been set to
/// `Error`.
pub open spec fn with_errors<T>(
    names: Seq<Seq<char>>,
    column: Seq<Remote<T>>,
    failed: Seq<Seq<char>>,
) -> Seq<Remote<T>> {
    Seq::new(
        column.len(),
        |i: int|
            if failed.contains(names[i]) {
                Remote::Error
            } else {
                column[i]
            },
    )
}

/// The names and results of a response, as plain values.
pub open spec fn result_views<T>(results: Seq<(String, T)>) -> Seq<(Seq<char>, T)> {
    results.map_values(|p: (String, T)| (p.0@, p.1))
}

/// The M/F label of a gender slot: the summary of a result, `?` otherwise.
pub open spec fn mf_label(r: Remote<GenderResult>) -> Seq<char> {
    match r {
        Remote::Success(g) => summary_label(g.gender, g.percent),
        _ => "?"@,
    }
}

/// Lines joined with newline characters, without a trailing one.
pub open spec fn joined_lines(lines: Seq<Seq<char>>) -> Seq<char>
    decreases lines.len(),
{
    if lines.len() == 0 {
        Seq::empty()
    } else if lines.len() == 1 {
        lines[0]
    } else {
        joined_lines(lines.drop_last()) + "\n"@ + lines.last()
    }
}

/// An in-memory mapping from first name to its gender and country lookups.
pub struct Db {
    names: Vec<String>,
    genders: Vec<Remote<GenderResult>>,
    countries: Vec<Remote<Vec<CountryResult>>>,
}

impl Db {
    /// The tracked names, in the order they were first submitted.
    pub closed spec fn spec_names(&self) -> Seq<Seq<char>> {
        name_views(self.names@)
    }

    /// The gender slot of each tracked name, by position.
    pub closed spec fn spec_genders(&self) -> Seq<Remote<GenderResult>> {
        self.genders@
    }

    /// The country slot of each tracked name, by position.
    pub closed spec fn spec_countries(&self) -> Seq<Remote<Vec<CountryResult>>> {
        self.countries@
    }

    /// One record per tracked name: each name once, with one slot of each
    /// kind.
    pub open spec fn wf(&self) -> bool {
        &&& self.spec_genders().len() == self.spec_names().len()
        &&& self.spec_countries().len() == self.spec_names().len()
        &&& self.spec_names().no_duplicates()
    }

    /// Whether a lookup of `name` has been started in this session.
    pub open spec fn tracks(&self, name: Seq<char>) -> bool {
        self.spec_names().contains(name)
    }

    /// The gender slot of a tracked name.
    pub open spec fn gender_of(&self, name: Seq<char>) -> Remote<GenderResult> {
        self.spec_genders()[self.spec_names().index_of(name)]
    }

    /// The country slot of a tracked name.
    pub open spec fn country_of(&self, name: Seq<char>) -> Remote<Vec<CountryResult>> {
        self.spec_countries()[self.spec_names().index_of(name)]
    }

    /// An empty store.
    pub fn new() -> (r: Self)
        ensures
            r.wf(),
            r.spec_names() == Seq::<Seq<char>>::empty(),
    {
        let r = Db { names: Vec::new(), genders: Vec::new(), countries: Vec::new() };
        proof {
            assert(r.spec_names() =~= Seq::<Seq<char>>::empty());
        }
        r
    }

    /// Tracks every name of `names` that is not tracked yet, with both slots
    /// `Loading`, and returns those names in input order, each once: they
    /// are the names whose lookups the caller must now start. A tracked name
    /// is skipped even when its lookups failed.
    pub fn start_any_requests(&mut self, names: &[String]) -> (fresh: Vec<String>)
        requires
            old(self).wf(),
        ensures
            final(self).wf(),
            name_views(fresh@) == fresh_names(old(self).spec_names(), name_views(names@)),
            final(self).spec_names() == old(self).spec_names() + name_views(fresh@),
            final(self).spec_genders() == old(self).spec_genders() + Seq::new(
                fresh@.len(),
                |i: int| Remote::<GenderResult>::Loading,
            ),
            final(self).spec_countries() == old(self).spec_countries() + Seq::new(
                fresh@.len(),
                |i: int| Remote::<Vec<CountryResult>>::Loading,
            ),
    {
        let ghost input = name_views(names@);
        let ghost known = old(self).spec_names();
        let mut fresh: Vec<String> = Vec::new();
        let mut i: usize = 0;
        while i < names.len()
            invariant
                self.wf(),
                i <= names@.len(),
                input == name_views(names@),
                known == old(self).spec_names(),
                name_views(fresh@) == fresh_names(known, input.take(i as int)),
                self.spec_names() == known + name_views(fresh@),
                self.spec_genders() == old(self).spec_genders() + Seq::new(
                    fresh@.len(),
                    |i: int| Remote::<GenderResult>::Loading,
                ),
                self.spec_countries() == old(self).spec_countries() + Seq::new(
                    fresh@.len(),
                    |i: int| Remote::<Vec<CountryResult>>::Loading,
                ),
            decreases names.len() - i,
        {
            let ghost f = name_views(fresh@);
            let ghost x = input[i as int];
            proof {
                assert(input.take(i + 1).drop_last() =~= input.take(i as int));
                assert(input.take(i + 1).last() == x);
                assert((known + f).contains(x) <==> (known.contains(x) || f.contains(x))) by {
                    if (known + f).contains(x) {
                        let w = choose|w: int| 0 <= w < (known + f).len() && (known + f)[w] == x;
                        if w >= known.len() {
                            assert(f[w - known.len()] == x);
                        }
                    }
                    if known.contains(x) {
                        let w = choose|w: int| 0 <= w < known.len() && known[w] == x;
                        assert((known + f)[w] == x);
                    }
                    if f.contains(x) {
                        let w = choose|w: int| 0 <= w < f.len() && f[w] == x;
                        assert((known + f)[known.len() + w] == x);
                    }
                }
            }
            let ghost prev_names = self.spec_names();
            proof {
                assert(fresh_names(known, input.take(i + 1)) == (if known.contains(x) || f.contains(
                    x,
                ) {
                    f
                } else {
                    f.push(x)
                }));
            }
            let found = position(&self.names, &names[i]);
            proof {
                if let Some(j) = found {
                    assert(prev_names[j as int] == x);
                    assert(prev_names.contains(x));
                }
            }
            if found.is_none() {
                let ghost prev_vec = self.names@;
                self.names.push(names[i].clone());
                proof {
                    assert(name_views(self.names@) =~= name_views(prev_vec).push(x));
                    let cur = self.spec_names();
                    assert forall|a: int, b: int| 0 <= a < cur.len() && 0 <= b < cur.len() && a
                        != b implies cur[a] != cur[b] by {
                        if a < prev_names.len() && b < prev_names.len() {
                        } else if a < prev_names.len() {
                            assert(prev_names.contains(cur[a]));
                        } else if b < prev_names.len() {
                            assert(prev_names.contains(cur[b]));
                        }
                    }
                }
                self.genders.push(Remote::Loading);
                self.countries.push(Remote::Loading);
                fresh.push(names[i].clone());
                proof {
                    assert(name_views(fresh@) =~= f.push(x));
                    assert(self.spec_names() =~= known + f.push(x));
                    assert(self.spec_genders() =~= old(self).spec_genders() + Seq::new(
                        fresh@.len(),
                        |i: int| Remote::<GenderResult>::Loading,
                    ));
                    assert(self.spec_countries() =~= old(self).spec_countries() + Seq::new(
                        fresh@.len(),
                        |i: int| Remote::<Vec<CountryResult>>::Loading,
                    ));
                }
            }
            i += 1;
        }
        proof {
            assert(input.take(names@.len() as int) =~= input);
        }
        fresh
    }

    /// The position of a tracked name.
    fn index_of(&self, name: &String) -> (r: usize)
        requires
            self.wf(),
            self.tracks(name@),
        ensures
            r < self.spec_names().len(),
            r == self.spec_names().index_of(name@),
    {
        match position(&self.names, name) {
            Some(i) => {
                proof {
                    let names = self.spec_names();
                    assert(names[i as int] == name@);
                    let k = names.index_of(name@);
                    assert(0 <= k < names.len() && names[k] == name@);
                }
                i
            },
            None => {
                proof {
                    assert(false);
                }
                0
            },
        }
    }

    /// Whether a lookup of `name` has been started in this session.
    pub fn contains(&self, name: &String) -> (r: bool)
        requires
            self.wf(),
        ensures
            r == self.tracks(name@),
    {
        match position(&self.names, name) {
            Some(i) => {
                proof {
                    assert(self.spec_names()[i as int] == name@);
                }
                true
            },
            None => false,
        }
    }

    /// The gender lookup of a name that has been submitted.
    pub fn gender(&self, name: &String) -> (r: &Remote<GenderResult>)
        requires
            self.wf(),
            self.tracks(name@),
        ensures
            *r == self.gender_of(name@),
    {
        let i = self.index_of(name);
        &self.genders[i]
    }

    /// The country lookup of a name that has been submitted.
    pub fn country(&self, name: &String) -> (r: &Remote<Vec<CountryResult>>)
        requires
            self.wf(),
            self.tracks(name@),
        ensures
            *r == self.country_of(name@),
    {
        let i = self.index_of(name);
        &self.countries[i]
    }

    /// The M/F column of `names`, ready to paste into a spreadsheet: one
    /// line per name, its gender label or `?` while there is none.
    pub fn mf_column(&self, names: &[String]) -> (r: String)
        requires
            self.wf(),
            forall|i: int| 0 <= i < names@.len() ==> self.tracks((#[trigger] names@[i])@),
        ensures
            r@ == joined_lines(
                Seq::new(names@.len(), |i: int| mf_label(self.gender_of(names@[i]@))),
            ),
    {
        let ghost labels = Seq::new(names@.len(), |i: int| mf_label(self.gender_of(names@[i]@)));
        let mut column = String::new();
        let mut i: usize = 0;
        while i < names.len()
            invariant
                self.wf(),
                i <= names@.len(),
                forall|j: int| 0 <= j < names@.len() ==> self.tracks((#[trigger] names@[j])@),
                labels == Seq::new(names@.len(), |i: int| mf_label(self.gender_of(names@[i]@))),
                column@ == joined_lines(labels.take(i as int)),
            decreases names.len() - i,
        {
            let label = match self.gender(&names[i]) {
                Remote::Success(g) => g.summarised(),
                _ => "?",
            };
            if i > 0 {
                column.append("\n");
            }
            column.append(label);
            proof {
                assert(labels.take(i + 1).drop_last() =~= labels.take(i as int));
                assert(labels.take(i + 1).last() == labels[i as int]);
                if i == 0 {
                    assert(column@ =~= labels.take(1)[0]);
                }
            }
            i += 1;
        }
        proof {
            assert(labels.take(names@.len() as int) =~= labels);
        }
        column
    }

    /// Sets the gender slot of `name`; a name that is not tracked is
    /// ignored.
    pub fn set_gender(&mut self, name: &String, value: Remote<GenderResult>)
        requires
            old(self).wf(),
        ensures
            final(self).wf(),
            final(self).spec_names() == old(self).spec_names(),
            final(self).spec_genders() == column_set(
                old(self).spec_names(),
                old(self).spec_genders(),
                name@,
                value,
            ),
            final(self).spec_countries() == old(self).spec_countries(),
    {
        set_slot(&self.names, &mut self.genders, name, value);
    }

    /// Sets the country slot of `name`; a name that is not tracked is
    /// ignored.
    pub fn set_country(&mut self, name: &String, value: Remote<Vec<CountryResult>>)
        requires
            old(self).wf(),
        ensures
            final(self).wf(),
            final(self).spec_names() == old(self).spec_names(),
            final(self).spec_genders() == old(self).spec_genders(),
            final(self).spec_countries() == column_set(
                old(self).spec_names(),
                old(self).spec_countries(),
                name@,
                value,
            ),
    {
        set_slot(&self.names, &mut self.countries, name, value);
    }

    /// Records the outcome of one bulk gender request for the names of
    /// `chunk`: on success each answered name gets its result, on failure
    /// the error message is published once at time `now` and every name of
    /// the chunk gets `Error`. The country slots are left alone.
    pub fn apply_genders(
        &mut self,
        chunk: &[String],
        outcome: ApiResult<GenderResult>,
        errors: &mut ErrorQueue,
        now: u64,
    )
        requires
            old(self).wf(),
            old(errors).wf(),
            old(errors).spec_last_id() < u64::MAX,
        ensures
            final(self).wf(),
            final(errors).wf(),
            final(self).spec_names() == old(self).spec_names(),
            final(self).spec_countries() == old(self).spec_countries(),
            match outcome {
                Ok(results) => {
                    &&& final(self).spec_genders() == with_successes(
                        old(self).spec_names(),
                        old(self).spec_genders(),
                        result_views(results@),
                    )
                    &&& *final(errors) == *old(errors)
                },
                Err(e) => {
                    &&& final(self).spec_genders() == with_errors(
                        old(self).spec_names(),
                        old(self).spec_genders(),
                        name_views(chunk@),
                    )
                    &&& published_once(*old(errors), *final(errors), error_message(e), now)
                },
            },
    {
        apply_outcome(&self.names, &mut self.genders, chunk, outcome, errors, now);
    }

    /// Records the outcome of one bulk country request for the names of
    /// `chunk`, as [`Db::apply_genders`] does for genders. The gender slots
    /// are left alone.
    pub fn apply_countries(
        &mut self,
        chunk: &[String],
        outcome: ApiResult<Vec<CountryResult>>,
        errors: &mut ErrorQueue,
        now: u64,
    )
        requires
            old(self).wf(),
            old(errors).wf(),
            old(errors).spec_last_id() < u64::MAX,
        ensures
            final(self).wf(),
            final(errors).wf(),
            final(self).spec_names() == old(self).spec_names(),
            final(self).spec_genders() == old(self).spec_genders(),
            match outcome {
                Ok(results) => {
                    &&& final(self).spec_countries() == with_successes(
                        old(self).spec_names(),
                        old(self).spec_countries(),
                        result_views(results@),
                    )
                    &&& *final(errors) == *old(errors)
                },
                Err(e) => {
                    &&& final(self).spec_countries() == with_errors(
                        old(self).spec_names(),
                        old(self).spec_countries(),
                        name_views(chunk@),
                    )
                    &&& published_once(*old(errors), *final(errors), error_message(e), now)
                },
            },
    {
        apply_outcome(&self.names, &mut self.countries, chunk, outcome, errors, now);
    }
}

/// The position of `name` in `names`, if it is there.
fn position(names: &Vec<String>, name: &String) -> (r: Option<usize>)
    ensures
        match r {
            Some(i) => i < names@.len() && names@[i as int]@ == name@,
            None => !name_views(names@).contains(name@),
        },
{
    let mut i: usize = 0;
    while i < names.len()
        invariant
            i <= names@.len(),
            forall|j: int| 0 <= j < i ==> names@[j]@ != name@,
        decreases names.len() - i,
    {
        if names[i] == *name {
            return Some(i);
        }
        i += 1;
    }
    proof {
        assert forall|j: int| 0 <= j < names@.len() implies name_views(names@)[j] != name@ by {}
    }
    None
}

/// Sets the slot of `name` in `column` to `value`, if `name` is there.
fn set_slot<T>(names: &Vec<String>, column: &mut Vec<Remote<T>>, name: &String, value: Remote<T>)
    requires
        old(column)@.len() == names@.len(),
        name_views(names@).no_duplicates(),
    ensures
        final(column)@ == column_set(name_views(names@), old(column)@, name@, value),
{
    let ghost views = name_views(names@);
    match position(names, name) {
        Some(i) => {
            column.set(i, value);
            proof {
                assert forall|j: int| 0 <= j < views.len() && j != i implies views[j] != name@ by {
                    assert(views[i as int] == name@);
                }
                assert(column@ =~= column_set(views, old(column)@, name@, value));
            }
        },
        None => {
            proof {
                assert forall|j: int| 0 <= j < views.len() implies views[j] != name@ by {
                    assert(views.contains(views[j]));
                }
                assert(column@ =~= column_set(views, old(column)@, name@, value));
            }
        },
    }
}

/// Writes the outcome of one bulk request into `column`: on success, each
/// answered name gets its result; on failure, the message is published once
/// and every name of the request gets `Error`.
fn apply_outcome<T>(
    names: &Vec<String>,
    column: &mut Vec<Remote<T>>,
    chunk: &[String],
    outcome: ApiResult<T>,
    errors: &mut ErrorQueue,
    now: u64,
)
    requires
        old(column)@.len() == names@.len(),
        name_views(names@).no_duplicates(),
        old(errors).wf(),
        old(errors).spec_last_id() < u64::MAX,
    ensures
        final(errors).wf(),
        final(column)@.len() == names@.len(),
        match outcome {
            Ok(results) => {
                &&& final(column)@ == with_successes(
                    name_views(names@),
                    old(column)@,
                    result_views(results@),
                )
                &&& *final(errors) == *old(errors)
            },
            Err(e) => {
                &&& final(column)@ == with_errors(
                    name_views(names@),
                    old(column)@,
                    name_views(chunk@),
                )
                &&& published_once(*old(errors), *final(errors), error_message(e), now)
            },
        },
{
    let ghost views = name_views(names@);
    match outcome {
        Ok(results) => {
            let ghost all = result_views(results@);
            let mut rest = results;
            let ghost mut done: int = 0;
            while rest.len() > 0
                invariant
                    column@.len() == names@.len(),
                    views == name_views(names@),
                    views.no_duplicates(),
                    all == result_views(results@),
                    0 <= done <= all.len(),
                    result_views(rest@) == all.skip(done),
                    column@ == with_successes(views, old(column)@, all.take(done)),
                decreases rest.len(),
            {
                proof {
                    assert(result_views(rest@).len() == rest@.len());
                    assert(done < all.len());
                }
                let ghost before_rest = rest@;
                let (name, value) = rest.remove(0);
                proof {
                    assert forall|i: int| 0 <= i < rest@.len() implies result_views(rest@)[i]
                        == all.skip(done + 1)[i] by {
                        assert(rest@[i] == before_rest[i + 1]);
                        assert(result_views(before_rest)[i + 1] == all.skip(done)[i + 1]);
                    }
                    assert(all.skip(done)[0] == (name@, value));
                    assert(all.take(done + 1).drop_last() =~= all.take(done));
                    assert(all.take(done + 1).last() == all[done]);
                    assert(result_views(rest@) =~= all.skip(done + 1));
                }
                set_slot(names, column, &name, Remote::Success(value));
                proof {
                    done = done + 1;
                }
            }
            proof {
                assert(all.take(done) =~= all);
            }
        },
        Err(e) => {
            let message = e.message();
            errors.publish(message, now);
            proof {
                assert(errors.spec_entries().drop_last() =~= old(errors).spec_entries());
            }
            let ghost failed = name_views(chunk@);
            let mut j: usize = 0;
            while j < chunk.len()
                invariant
                    column@.len() == names@.len(),
                    views == name_views(names@),
                    views.no_duplicates(),
                    failed == name_views(chunk@),
                    j <= chunk@.len(),
                    column@ == with_errors(views, old(column)@, failed.take(j as int)),
                decreases chunk.len() - j,
            {
                set_slot(names, column, &chunk[j], Remote::Error);
                proof {
                    let prev = failed.take(j as int);
                    let next = failed.take(j + 1);
                    assert(next =~= prev.push(chunk@[j as int]@));
                    assert forall|i: int| 0 <= i < views.len() implies next.contains(views[i])
                        == (prev.contains(views[i]) || views[i] == chunk@[j as int]@) by {
                        if next.contains(views[i]) {
                            let w = choose|w: int| 0 <= w < next.len() && next[w] == views[i];
                            if w < j {
                                assert(prev[w] == views[i]);
                            }
                        }
                        if prev.contains(views[i]) {
                            let w = choose|w: int| 0 <= w < prev.len() && prev[w] == views[i];
                            assert(next[w] == views[i]);
                        }
                        if views[i] == chunk@[j as int]@ {
                            assert(next[j as int] == views[i]);
                        }
                    }
                    assert(column@ =~= with_errors(views, old(column)@, next));
                }
                j += 1;
            }
            proof {
                assert(failed.take(chunk@.len() as int) =~= failed);
            }
        },
    }
}

} // verus!

verus! {

/// The last answer for `name` in a response, if the response has one.
pub open spec fn answer_for<T>(results: Seq<(Seq<char>, T)>, name: Seq<char>) -> Option<T>
    decreases results.len(),
{
    if results.len() == 0 {
        None
    } else if results.last().0 == name {
        Some(results.last().1)
    } else {
        answer_for(results.drop_last(), name)
    }
}

/// After a successful response, a name the response answered holds its
/// last answer, and any other slot keeps its state: a name that the
/// response leaves out stays as it was, `Loading` included.
pub proof fn lemma_success_at<T>(
    names: Seq<Seq<char>>,
    column: Seq<Remote<T>>,
    results: Seq<(Seq<char>, T)>,
    i: int,
)
    requires
        0 <= i < column.len(),
        column.len() == names.len(),
    ensures
        with_successes(names, column, results).len() == column.len(),
        with_successes(names, column, results)[i] == match answer_for(results, names[i]) {
            Some(v) => Remote::Success(v),
            None => column[i],
        },
    decreases results.len(),
{
    if results.len() > 0 {
        lemma_success_at(names, column, results.drop_last(), i);
    }
}

/// Requests fail and succeed in isolation. When a failed request and a
/// successful one share no name, each slot ends up the same whichever
/// completes first: `Error` for the names of the failed request, the answer
/// for the names the successful one answered, and unchanged otherwise.
pub proof fn lemma_outcomes_isolated<T>(
    names: Seq<Seq<char>>,
    column: Seq<Remote<T>>,
    failed: Seq<Seq<char>>,
    results: Seq<(Seq<char>, T)>,
    i: int,
)
    requires
        0 <= i < column.len(),
        column.len() == names.len(),
        forall|j: int| 0 <= j < results.len() ==> !failed.contains(#[trigger] results[j].0),
    ensures
        with_errors(names, with_successes(names, column, results), failed)[i] == with_successes(
            names,
            with_errors(names, column, failed),
            results,
        )[i],
        failed.contains(names[i]) ==> with_errors(
            names,
            with_successes(names, column, results),
            failed,
        )[i] is Error,
        !failed.contains(names[i]) ==> with_errors(
            names,
            with_successes(names, column, results),
            failed,
        )[i] == match answer_for(results, names[i]) {
            Some(v) => Remote::Success(v),
            None => column[i],
        },
{
    lemma_success_at(names, column, results, i);
    lemma_success_at(names, with_errors(names, column, failed), results, i);
    if failed.contains(names[i]) {
        lemma_no_answer(results, failed, names[i]);
    }
}

proof fn lemma_no_answer<T>(results: Seq<(Seq<char>, T)>, failed: Seq<Seq<char>>, name: Seq<char>)
    requires
        failed.contains(name),
        forall|j: int| 0 <= j < results.len() ==> !failed.contains(#[trigger] results[j].0),
    ensures
        answer_for(results, name) is None,
    decreases results.len(),
{
    if results.len() > 0 {
        assert(!failed.contains(results[results.len() - 1].0));
        assert forall|j: int| 0 <= j < results.drop_last().len() implies !failed.contains(
            #[trigger] results.drop_last()[j].0,
        ) by {
            assert(results.drop_last()[j] == results[j]);
        }
        lemma_no_answer(results.drop_last(), failed, name);
    }
}

proof fn lemma_fresh_facts(known: Seq<Seq<char>>, input: Seq<Seq<char>>)
    ensures
        forall|x: Seq<char>|
            input.contains(x) ==> known.contains(x) || #[trigger] fresh_names(
                known,
                input,
            ).contains(x),
        forall|x: Seq<char>|
            #[trigger] fresh_names(known, input).contains(x) ==> input.contains(x)
                && !known.contains(x),
        fresh_names(known, input).no_duplicates(),
    decreases input.len(),
{
    if input.len() > 0 {
        let init = input.drop_last();
        let x = input.last();
        lemma_fresh_facts(known, init);
        let prev = fresh_names(known, init);
        let cur = fresh_names(known, input);
        assert forall|y: Seq<char>| input.contains(y) implies known.contains(y) || cur.contains(
            y,
        ) by {
            let w = choose|w: int| 0 <= w < input.len() && input[w] == y;
            if w < init.len() {
                assert(init[w] == y);
                assert(init.contains(y));
                if prev.contains(y) {
                    let v = choose|v: int| 0 <= v < prev.len() && prev[v] == y;
                    assert(cur[v] == y);
                }
            } else if !known.contains(y) && !prev.contains(y) {
                assert(cur[prev.len() as int] == y);
            } else if prev.contains(y) {
                let v = choose|v: int| 0 <= v < prev.len() && prev[v] == y;
                assert(cur[v] == y);
            }
        }
        assert forall|y: Seq<char>| cur.contains(y) implies input.contains(y) && !known.contains(
            y,
        ) by {
            let v = choose|v: int| 0 <= v < cur.len() && cur[v] == y;
            if v < prev.len() {
                assert(prev[v] == y);
                assert(prev.contains(y));
                let w = choose|w: int| 0 <= w < init.len() && init[w] == y;
                assert(input[w] == y);
            } else {
                assert(input[input.len() - 1] == y);
            }
        }
    }
}

/// Submitting the same list twice tracks it once: the first submission
/// leaves one record per distinct name, the known names and those of the
/// list, each once, and the second submission finds no name to look up.
pub proof fn lemma_tracking_idempotent(known: Seq<Seq<char>>, input: Seq<Seq<char>>)
    requires
        known.no_duplicates(),
    ensures
        (known + fresh_names(known, input)).no_duplicates(),
        (known + fresh_names(known, input)).to_set() == known.to_set().union(input.to_set()),
        fresh_names(known + fresh_names(known, input), input) == Seq::<Seq<char>>::empty(),
{
    lemma_fresh_facts(known, input);
    let fresh = fresh_names(known, input);
    let all = known + fresh;
    assert forall|a: int, b: int| 0 <= a < all.len() && 0 <= b < all.len() && a != b implies all[a]
        != all[b] by {
        if a >= known.len() && b < known.len() {
            assert(fresh.contains(all[a]));
            assert(known.contains(all[b]));
        } else if a < known.len() && b >= known.len() {
            assert(fresh.contains(all[b]));
            assert(known.contains(all[a]));
        }
    }
    assert forall|x: Seq<char>| all.contains(x) <==> known.contains(x) || input.contains(x) by {
        if all.contains(x) {
            let w = choose|w: int| 0 <= w < all.len() && all[w] == x;
            if w >= known.len() {
                assert(fresh[w - known.len()] == x);
                assert(fresh_names(known, input).contains(x));
            } else {
                assert(known[w] == x);
            }
        }
        if known.contains(x) {
            let w = choose|w: int| 0 <= w < known.len() && known[w] == x;
            assert(all[w] == x);
        }
        if input.contains(x) && !known.contains(x) {
            assert(known.contains(x) || fresh_names(known, input).contains(x));
            let w = choose|w: int| 0 <= w < fresh.len() && fresh[w] == x;
            assert(all[known.len() + w] == x);
        }
    }
    assert(all.to_set() =~= known.to_set().union(input.to_set()));
    lemma_known_adds_nothing(all, input);
}

proof fn lemma_known_adds_nothing(known: Seq<Seq<char>>, input: Seq<Seq<char>>)
    requires
        forall|x: Seq<char>| input.contains(x) ==> known.contains(x),
    ensures
        fresh_names(known, input) == Seq::<Seq<char>>::empty(),
    decreases input.len(),
{
    if input.len() > 0 {
        let init = input.drop_last();
        assert forall|x: Seq<char>| init.contains(x) implies known.contains(x) by {
            let w = choose|w: int| 0 <= w < init.len() && init[w] == x;
            assert(input[w] == x);
        }
        lemma_known_adds_nothing(known, init);
        assert(input[input.len() - 1] == input.last());
        assert(input.contains(input.last()));
    }
}

} // verus!
