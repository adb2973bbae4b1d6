//! System-prompt assembly.
//!
//! Plugins contribute ordered [`PromptSection`]s and [`PromptContext`]s; one
//! assembly concatenates the sections, interpolates `{{variables}}`, and
//! yields the `system` slot of the next request.

use crate::api::services::SystemPromptApi;
use crate::ordered_map;
use crate::ordered_map::OrderedMap;
use crate::text;
use crate::text::{blank, concat3, contains, joined, replaced_all, str_eq};
use vstd::prelude::*;

#[allow(unused_imports)]
use crate::api::services;

verus! {

/// The result of one assembly: the rendered system prompt.
#[derive(Debug, PartialEq, Eq)]
pub struct PromptAssembly {
    pub system: String,
}

impl Clone for PromptAssembly {
    fn clone(&self) -> (r: Self)
        ensures
            r.system@ == self.system@,
    {
        PromptAssembly { system: self.system.clone() }
    }
}

impl Default for PromptAssembly {
    fn default() -> (r: Self)
        ensures
            r.system@ == Seq::<char>::empty(),
    {
        PromptAssembly { system: String::new() }
    }
}

/// Static text or a provider evaluated at each assembly.
pub enum PromptText<F> {
    Static(String),
    Dynamic(F),
}

/// Whether `t` may resolve to `s`.
pub open spec fn resolves<F: Fn() -> String>(t: PromptText<F>, s: Seq<char>) -> bool {
    match t {
        PromptText::Static(text) => s == text@,
        PromptText::Dynamic(provider) => exists|r: String|
            call_ensures(provider, (), r) && #[trigger] r@ == s,
    }
}

/// Whether `t` can be resolved.
pub open spec fn resolvable<F: Fn() -> String>(t: PromptText<F>) -> bool {
    t matches PromptText::Dynamic(provider) ==> call_requires(provider, ())
}

impl<F: Fn() -> String> PromptText<F> {
    /// The text: as it stands, or as the provider gives it now.
    pub fn resolve(&self) -> (r: String)
        requires
            resolvable(*self),
        ensures
            resolves(*self, r@),
            self matches PromptText::Static(text) ==> r@ == text@,
            self matches PromptText::Dynamic(provider) ==> call_ensures(provider, (), r),
    {
        match self {
            PromptText::Static(text) => text.clone(),
            PromptText::Dynamic(provider) => provider(),
        }
    }
}

/// One contributed section of the system prompt.
pub struct PromptSection<F> {
    /// Unique name; a duplicate registration replaces the earlier one.
    pub name: String,
    /// Sections concatenate in ascending order. Convention: `-100` is the
    /// harness identity, `0` the deployment persona, tool guidance 100-199.
    pub order: i32,
    pub text: PromptText<F>,
    /// Treat this contribution as the complete system prompt.
    pub complete: bool,
}

impl<F> PromptSection<F> {
    /// An ordinary section.
    pub fn new(name: &str, order: i32, text: PromptText<F>) -> (r: Self)
        ensures
            r.name@ == name@,
            r.order == order,
            r.text == text,
            !r.complete,
    {
        PromptSection { name: name.to_owned(), order, text, complete: false }
    }

    /// The same section, as the complete system prompt.
    pub fn complete(self) -> (r: Self)
        ensures
            r == (PromptSection { complete: true, ..self }),
    {
        PromptSection { name: self.name, order: self.order, text: self.text, complete: true }
    }
}

/// Dynamic model context materialized as a durable user-role snapshot.
pub struct PromptContext<F> {
    pub name: String,
    /// Contexts are joined in ascending order.
    pub order: i32,
    pub text: PromptText<F>,
}

impl<F> PromptContext<F> {
    /// A context.
    pub fn new(name: &str, order: i32, text: PromptText<F>) -> (r: Self)
        ensures
            r.name@ == name@,
            r.order == order,
            r.text == text,
    {
        PromptContext { name: name.to_owned(), order, text }
    }
}

// ---------------------------------------------------------------------------
// ordering
// ---------------------------------------------------------------------------

/// Where a section of that order goes among sections in order: after those
/// that come before it or have the same order.
pub open spec fn place(orders: Seq<i32>, order: i32) -> int
    decreases orders.len(),
{
    if orders.len() == 0 || orders.last() <= order {
        orders.len() as int
    } else {
        place(orders.drop_last(), order)
    }
}

/// The positions of the sections in ascending order; sections of the same
/// order stay in registration order.
pub open spec fn ranking(orders: Seq<i32>) -> Seq<int>
    decreases orders.len(),
{
    if orders.len() == 0 {
        seq![]
    } else {
        let before = ranking(orders.drop_last());
        before.insert(
            place(Seq::new(before.len(), |i: int| orders[before[i]]), orders.last()),
            orders.len() - 1,
        )
    }
}

proof fn lemma_place(orders: Seq<i32>, order: i32)
    ensures
        0 <= place(orders, order) <= orders.len(),
        place(orders, order) > 0 ==> orders[place(orders, order) - 1] <= order,
        forall|i: int| place(orders, order) <= i < orders.len() ==> #[trigger] orders[i] > order,
    decreases orders.len(),
{
    if orders.len() > 0 && orders.last() > order {
        lemma_place(orders.drop_last(), order);
        assert forall|i: int| place(orders, order) <= i < orders.len() implies #[trigger] orders[i]
            > order by {
            if i < orders.len() - 1 {
                assert(orders.drop_last()[i] == orders[i]);
            }
        }
    }
}

/// The orders of sections as they are ranked.
pub open spec fn ranked(orders: Seq<i32>) -> Seq<i32> {
    Seq::new(ranking(orders).len(), |i: int| orders[ranking(orders)[i]])
}

/// Ranking names every section once, in ascending order, and keeps sections of
/// the same order in registration order.
pub proof fn law_ranking_is_a_stable_sort(orders: Seq<i32>)
    ensures
        ranking(orders).len() == orders.len(),
        forall|i: int|
            0 <= i < orders.len() ==> 0 <= #[trigger] ranking(orders)[i] < orders.len(),
        forall|i: int, j: int|
            0 <= i < j < orders.len() ==> {
                let a = #[trigger] ranking(orders)[i];
                let b = #[trigger] ranking(orders)[j];
                orders[a] < orders[b] || (orders[a] == orders[b] && a < b)
            },
    decreases orders.len(),
{
    if orders.len() > 0 {
        let head = orders.drop_last();
        law_ranking_is_a_stable_sort(head);
        let before = ranking(head);
        let known = Seq::new(before.len(), |i: int| orders[before[i]]);
        let last = orders.last();
        let at = place(known, last);
        lemma_place(known, last);
        let r = ranking(orders);
        assert(r == before.insert(at, orders.len() - 1));
        assert forall|i: int| 0 <= i < orders.len() implies 0 <= #[trigger] r[i]
            < orders.len() by {
            if i < at {
                assert(r[i] == before[i]);
            } else if i > at {
                assert(r[i] == before[i - 1]);
            }
        }
        assert forall|i: int, j: int| 0 <= i < j < orders.len() implies {
            let a = #[trigger] r[i];
            let b = #[trigger] r[j];
            orders[a] < orders[b] || (orders[a] == orders[b] && a < b)
        } by {
            if i < at {
                assert(r[i] == before[i]);
            } else if i > at {
                assert(r[i] == before[i - 1]);
            }
            if j < at {
                assert(r[j] == before[j]);
            } else if j > at {
                assert(r[j] == before[j - 1]);
            }
            if i == at {
                assert(known[j - 1] > last);
            } else if j == at {
                if i < at - 1 {
                    let a = before[i];
                    let b = before[at - 1];
                    assert(head[a] == orders[a] && head[b] == orders[b]);
                }
                assert(known[at - 1] <= last);
            } else {
                let a = r[i];
                let b = r[j];
                assert(head[a] == orders[a] && head[b] == orders[b]);
            }
        }
    }
}

/// The orders of sections.
pub open spec fn orders_of<F>(sections: Seq<PromptSection<F>>) -> Seq<i32> {
    Seq::new(sections.len(), |i: int| sections[i].order)
}

fn rank<F>(sections: &Vec<PromptSection<F>>) -> (r: Vec<usize>)
    ensures
        r@.len() == sections@.len(),
        forall|i: int| 0 <= i < r@.len() ==> (#[trigger] r@[i]) < sections@.len(),
        Seq::new(r@.len(), |i: int| r@[i] as int) == ranking(orders_of(sections@)),
{
    let ghost orders = orders_of(sections@);
    let mut out: Vec<usize> = Vec::new();
    assert(orders.take(0) =~= seq![]);
    assert(Seq::new(out@.len(), |i: int| out@[i] as int) =~= seq![]);
    for k in 0..sections.len()
        invariant
            orders == orders_of(sections@),
            out@.len() == k,
            forall|i: int| 0 <= i < k ==> (#[trigger] out@[i]) < k,
            Seq::new(out@.len(), |i: int| out@[i] as int) == ranking(orders.take(k as int)),
    {
        let ghost before = Seq::new(out@.len(), |i: int| out@[i] as int);
        let ghost upto = orders.take(k + 1);
        let ghost known = Seq::new(before.len(), |i: int| upto[before[i]]);
        assert(upto.drop_last() =~= orders.take(k as int));
        assert(upto.last() == orders[k as int]);
        let order: i32 = sections[k].order;
        let mut at: usize = out.len();
        assert(known.take(at as int) =~= known);
        while at > 0 && sections[out[at - 1]].order > order
            invariant
                at <= out@.len(),
                k < sections@.len(),
                orders == orders_of(sections@),
                upto == orders.take(k + 1),
                out@.len() == k,
                forall|i: int| 0 <= i < k ==> (#[trigger] out@[i]) < k,
                before == Seq::new(out@.len(), |i: int| out@[i] as int),
                known == Seq::new(before.len(), |i: int| upto[before[i]]),
                place(known.take(at as int), order) == place(known, order),
            decreases at,
        {
            assert(known.take(at as int).drop_last() =~= known.take(at - 1));
            assert(known.take(at as int).last() == known[at - 1]);
            assert(known[at - 1] == orders[out@[at - 1] as int]);
            at = at - 1;
        }
        assert(place(known.take(at as int), order) == at) by {
            if at > 0 {
                assert(known.take(at as int).last() == known[at - 1]);
                assert(known[at - 1] == orders[out@[at - 1] as int]);
            }
        }
        let ghost old_out = out@;
        out.insert(at, k);
        assert(Seq::new(out@.len(), |i: int| out@[i] as int) =~= before.insert(
            at as int,
            k as int,
        ));
        assert forall|i: int| 0 <= i < k + 1 implies (#[trigger] out@[i]) < k + 1 by {
            if i < at {
                assert(out@[i] == old_out[i]);
            } else if i > at {
                assert(out@[i] == old_out[i - 1]);
            }
        }
    }
    assert(orders.take(orders.len() as int) =~= orders);
    out
}

// ---------------------------------------------------------------------------
// assembly
// ---------------------------------------------------------------------------

/// The texts that are more than white space.
pub open spec fn shown_texts(texts: Seq<Seq<char>>) -> Seq<Seq<char>> {
    texts.filter(|t: Seq<char>| !text::is_blank(t))
}

/// The sections' texts as one: an empty line between neighbours, blank ones
/// left out.
pub open spec fn concatenated(texts: Seq<Seq<char>>) -> Seq<char> {
    text::join(shown_texts(texts), "\n\n"@)
}

/// What a section writes where a variable goes.
pub open spec fn placeholder(name: Seq<char>) -> Seq<char> {
    "{{"@ + name + "}}"@
}

/// `s` with a variable put in; without a value the placeholder stays.
pub open spec fn with_variable(s: Seq<char>, name: Seq<char>, value: Option<Seq<char>>) -> Seq<
    char,
> {
    match value {
        Some(v) => text::replace_all(s, placeholder(name), v),
        None => s,
    }
}

/// `s` with the variables put in, one after the other.
pub open spec fn interpolated(
    s: Seq<char>,
    names: Seq<Seq<char>>,
    values: Seq<Option<Seq<char>>>,
) -> Seq<char>
    decreases names.len(),
{
    if names.len() == 0 {
        s
    } else {
        with_variable(
            interpolated(s, names.drop_last(), values.drop_last()),
            names.last(),
            values.last(),
        )
    }
}

/// The sections' texts as one.
pub fn concatenate(texts: &Vec<String>) -> (r: String)
    ensures
        r@ == concatenated(text::views(texts@)),
{
    let ghost all = text::views(texts@);
    let ghost keep = |t: Seq<char>| !text::is_blank(t);
    let mut shown: Vec<String> = Vec::new();
    assert(all.take(0).filter(keep) =~= seq![]) by {
        reveal(Seq::filter);
    }
    assert(text::views(shown@) =~= seq![]);
    for i in 0..texts.len()
        invariant
            all == text::views(texts@),
            keep == (|t: Seq<char>| !text::is_blank(t)),
            text::views(shown@) == all.take(i as int).filter(keep),
    {
        let ghost before = text::views(shown@);
        proof {
            assert(all.take(i + 1).drop_last() =~= all.take(i as int));
            assert(all.take(i + 1).last() == all[i as int]);
            reveal(Seq::filter);
        }
        if !blank(texts[i].as_str()) {
            shown.push(texts[i].clone());
            assert(text::views(shown@) =~= before.push(all[i as int]));
        }
    }
    assert(all.take(all.len() as int) =~= all);
    joined(&shown, "\n\n")
}

/// What a section writes where a variable goes.
pub fn placeholder_of(name: &str) -> (r: String)
    ensures
        r@ == placeholder(name@),
{
    concat3("{{", name, "}}")
}

/// `s` with a variable put in.
pub fn interpolate(s: &str, name: &str, value: Option<&str>) -> (r: String)
    ensures
        r@ == with_variable(
            s@,
            name@,
            match value {
                Some(v) => Some(v@),
                None => None,
            },
        ),
{
    match value {
        Some(v) => replaced_all(s, placeholder_of(name).as_str(), v),
        None => s.to_owned(),
    }
}

/// A text without the placeholder is the same whatever the variable's value.
pub proof fn law_absent_placeholder_changes_nothing(
    s: Seq<char>,
    name: Seq<char>,
    value: Option<Seq<char>>,
)
    requires
        !text::occurs_in(s, placeholder(name)),
    ensures
        with_variable(s, name, value) == s,
{
    if let Some(v) = value {
        reveal_strlit("{{");
        assert(placeholder(name).len() > 0);
        lemma_replace_absent(s, placeholder(name), v);
    }
}

proof fn lemma_replace_absent(s: Seq<char>, p: Seq<char>, r: Seq<char>)
    requires
        p.len() > 0,
        !text::occurs_in(s, p),
    ensures
        text::replace_all(s, p, r) == s,
    decreases s.len(),
{
    if s.len() > 0 {
        assert(!text::occurs_at(s, p, 0));
        assert(!p.is_prefix_of(s));
        let tail = s.skip(1);
        assert forall|i: int| !text::occurs_at(tail, p, i) by {
            if text::occurs_at(tail, p, i) {
                assert(s.subrange(i + 1, i + 1 + p.len()) =~= tail.subrange(i, i + p.len()));
                assert(text::occurs_at(s, p, i + 1));
            }
        }
        lemma_replace_absent(tail, p, r);
        assert(seq![s[0]] + tail =~= s);
    }
}

/// The registered sections, contexts and variables.
pub struct SystemPromptService<F, G> {
    sections: Vec<PromptSection<F>>,
    contexts: Vec<PromptContext<F>>,
    variables: OrderedMap<G>,
}

/// What a [`SystemPromptService`] holds.
#[verifier::ext_equal]
#[verifier::reject_recursive_types(F)]
#[verifier::reject_recursive_types(G)]
pub struct SystemPromptView<F, G> {
    pub sections: Seq<PromptSection<F>>,
    pub contexts: Seq<PromptContext<F>>,
    pub variables: Seq<(Seq<char>, G)>,
}

impl<F, G> View for SystemPromptService<F, G> {
    type V = SystemPromptView<F, G>;

    closed spec fn view(&self) -> SystemPromptView<F, G> {
        SystemPromptView {
            sections: self.sections@,
            contexts: self.contexts@,
            variables: self.variables@,
        }
    }
}

/// The first section of that name, or the length.
pub open spec fn named<F>(sections: Seq<PromptSection<F>>, name: Seq<char>) -> int
    decreases sections.len(),
{
    if sections.len() == 0 || sections[0].name@ == name {
        0
    } else {
        1 + named(sections.skip(1), name)
    }
}

/// The first context of that name, or the length.
pub open spec fn named_context<F>(contexts: Seq<PromptContext<F>>, name: Seq<char>) -> int
    decreases contexts.len(),
{
    if contexts.len() == 0 || contexts[0].name@ == name {
        0
    } else {
        1 + named_context(contexts.skip(1), name)
    }
}

/// The sections in the order in which they are concatenated.
pub open spec fn in_order<F>(sections: Seq<PromptSection<F>>) -> Seq<PromptSection<F>> {
    let r = ranking(orders_of(sections));
    Seq::new(r.len(), |i: int| sections[r[i]])
}

/// The first complete section, or the length.
pub open spec fn first_complete<F>(sections: Seq<PromptSection<F>>) -> int
    decreases sections.len(),
{
    if sections.len() == 0 || sections[0].complete {
        0
    } else {
        1 + first_complete(sections.skip(1))
    }
}

/// Whether a variable's provider may give `value`.
pub open spec fn provides<G: Fn() -> Option<String>>(g: G, value: Option<Seq<char>>) -> bool {
    exists|r: Option<String>| call_ensures(g, (), r) && #[trigger] text::opt_view(r) == value
}

impl<F, G> SystemPromptView<F, G> {
    /// With a section registered: in the place of the one of its name, else as
    /// the latest.
    pub open spec fn with_section(self, section: PromptSection<F>) -> SystemPromptView<F, G> {
        let at = named(self.sections, section.name@);
        SystemPromptView {
            sections: if at < self.sections.len() {
                self.sections.update(at, section)
            } else {
                self.sections.push(section)
            },
            ..self
        }
    }

    /// With a context registered: in the place of the one of its name, else as
    /// the latest.
    pub open spec fn with_context(self, context: PromptContext<F>) -> SystemPromptView<F, G> {
        let at = named_context(self.contexts, context.name@);
        SystemPromptView {
            contexts: if at < self.contexts.len() {
                self.contexts.update(at, context)
            } else {
                self.contexts.push(context)
            },
            ..self
        }
    }

    /// With a variable registered.
    pub open spec fn with_variable(self, name: Seq<char>, provider: G) -> SystemPromptView<F, G> {
        SystemPromptView {
            variables: ordered_map::inserted(self.variables, name, provider),
            ..self
        }
    }
}

impl<F: Fn() -> String, G: Fn() -> Option<String>> SystemPromptView<F, G> {
    /// Whether every provider can be called.
    pub open spec fn callable(self) -> bool {
        &&& forall|i: int|
            0 <= i < self.sections.len() ==> resolvable(#[trigger] self.sections[i].text)
        &&& forall|i: int|
            0 <= i < self.variables.len() ==> call_requires(#[trigger] self.variables[i].1, ())
    }

    /// Whether `system` may be assembled from the sections' texts `texts` and
    /// the variables' values `values`. A variable is asked for its value only
    /// where its placeholder occurs.
    pub open spec fn assembled_from(
        self,
        texts: Seq<Seq<char>>,
        values: Seq<Option<Seq<char>>>,
        system: Seq<char>,
    ) -> bool {
        let sections = in_order(self.sections);
        let names = ordered_map::keys(self.variables);
        let base = concatenated(texts);
        &&& texts.len() == sections.len()
        &&& forall|i: int| 0 <= i < texts.len() ==> resolves(sections[i].text, #[trigger] texts[i])
        &&& values.len() == names.len()
        &&& forall|i: int|
            0 <= i < values.len() ==> {
                let upto = interpolated(base, names.take(i), values.take(i));
                if text::occurs_in(upto, placeholder(names[i])) {
                    provides(self.variables[i].1, #[trigger] values[i])
                } else {
                    values[i] is None
                }
            }
        &&& system == interpolated(base, names, values)
    }

    /// Whether `system` may be the result of an assembly: the first complete
    /// section alone where there is one, else all sections with the variables
    /// put in.
    pub open spec fn may_assemble(self, system: Seq<char>) -> bool {
        let sections = in_order(self.sections);
        let c = first_complete(sections);
        if 0 <= c < sections.len() {
            resolves(sections[c].text, system)
        } else {
            exists|texts: Seq<Seq<char>>, values: Seq<Option<Seq<char>>>|
                self.assembled_from(texts, values, system)
        }
    }
}

impl<F, G> SystemPromptService<F, G> {
    /// No variable is registered twice.
    pub closed spec fn well_formed(&self) -> bool {
        ordered_map::distinct(self.variables@)
    }

    /// A service without contributions.
    pub fn new() -> (r: Self)
        ensures
            r.well_formed(),
            r@ == (SystemPromptView::<F, G> { sections: seq![], contexts: seq![], variables: seq![] }),
    {
        SystemPromptService {
            sections: Vec::new(),
            contexts: Vec::new(),
            variables: OrderedMap::new(),
        }
    }

    /// Registers an ordered prompt section (replaces same-name duplicates).
    pub fn section(&mut self, section: PromptSection<F>)
        requires
            old(self).well_formed(),
        ensures
            final(self).well_formed(),
            final(self)@ == old(self)@.with_section(section),
    {
        let ghost all = self.sections@;
        let mut i: usize = 0;
        assert(all.skip(0) =~= all);
        while i < self.sections.len()
            invariant
                i <= self.sections@.len(),
                *self == *old(self),
                self.well_formed(),
                all == self.sections@,
                named(all, section.name@) == i + named(all.skip(i as int), section.name@),
            decreases self.sections@.len() - i,
        {
            assert(all.skip(i as int)[0] == all[i as int]);
            assert(all.skip(i as int).skip(1) =~= all.skip(i + 1));
            if str_eq(self.sections[i].name.as_str(), section.name.as_str()) {
                self.sections.set(i, section);
                return ;
            }
            i = i + 1;
        }
        self.sections.push(section);
    }

    /// Registers ordered dynamic context (replaces same-name duplicates).
    pub fn context(&mut self, context: PromptContext<F>)
        requires
            old(self).well_formed(),
        ensures
            final(self).well_formed(),
            final(self)@ == old(self)@.with_context(context),
    {
        let ghost all = self.contexts@;
        let mut i: usize = 0;
        assert(all.skip(0) =~= all);
        while i < self.contexts.len()
            invariant
                i <= self.contexts@.len(),
                *self == *old(self),
                self.well_formed(),
                all == self.contexts@,
                named_context(all, context.name@) == i + named_context(
                    all.skip(i as int),
                    context.name@,
                ),
            decreases self.contexts@.len() - i,
        {
            assert(all.skip(i as int)[0] == all[i as int]);
            assert(all.skip(i as int).skip(1) =~= all.skip(i + 1));
            if str_eq(self.contexts[i].name.as_str(), context.name.as_str()) {
                self.contexts.set(i, context);
                return ;
            }
            i = i + 1;
        }
        self.contexts.push(context);
    }

    /// Registers a prompt variable. Where the provider gives no value, a
    /// section that refers to the variable keeps the placeholder.
    pub fn variable(&mut self, name: &str, provider: G)
        requires
            old(self).well_formed(),
        ensures
            final(self).well_formed(),
            final(self)@ == old(self)@.with_variable(name@, provider),
    {
        self.variables.insert(name, provider);
    }
}

impl<F: Fn() -> String, G: Fn() -> Option<String>> SystemPromptService<F, G> {
    /// Assembles the system prompt: orders sections, concatenates, puts the
    /// `{{variables}}` in.
    pub fn assemble(&self) -> (r: PromptAssembly)
        requires
            self@.callable(),
        ensures
            self@.may_assemble(r.system@),
    {
        let ghost view = self@;
        let ghost sections = in_order(view.sections);
        let order = rank(&self.sections);
        proof {
            law_ranking_is_a_stable_sort(orders_of(view.sections));
        }
        let mut i: usize = 0;
        assert(sections.skip(0) =~= sections);
        while i < order.len()
            invariant
                i <= order@.len(),
                view == self@,
                view.callable(),
                sections == in_order(view.sections),
                sections.len() == order@.len(),
                order@.len() == self.sections@.len(),
                view.sections == self.sections@,
                forall|k: int| 0 <= k < order@.len() ==> (#[trigger] order@[k])
                    < self.sections@.len(),
                forall|k: int|
                    0 <= k < order@.len() ==> sections[k] == self.sections@[(
                    #[trigger] order@[k]) as int],
                first_complete(sections) == i + first_complete(sections.skip(i as int)),
            decreases order@.len() - i,
        {
            let at = order[i];
            assert(sections.skip(i as int)[0] == self.sections@[at as int]);
            assert(sections.skip(i as int).skip(1) =~= sections.skip(i + 1));
            if self.sections[at].complete {
                assert(resolvable(view.sections[at as int].text));
                return PromptAssembly { system: self.sections[at].text.resolve() };
            }
            i = i + 1;
        }
        let mut texts: Vec<String> = Vec::new();
        for k in 0..order.len()
            invariant
                view == self@,
                view.callable(),
                sections == in_order(view.sections),
                sections.len() == order@.len(),
                view.sections == self.sections@,
                forall|j: int| 0 <= j < order@.len() ==> (#[trigger] order@[j])
                    < self.sections@.len(),
                forall|j: int|
                    0 <= j < order@.len() ==> sections[j] == self.sections@[(
                    #[trigger] order@[j]) as int],
                texts@.len() == k,
                forall|j: int|
                    0 <= j < k ==> resolves(sections[j].text, (#[trigger] texts@[j])@),
        {
            let at = order[k];
            assert(resolvable(view.sections[at as int].text));
            texts.push(self.sections[at].text.resolve());
        }
        let ghost resolved = text::views(texts@);
        let mut system = concatenate(&texts);
        let ghost base = system@;
        let ghost names = ordered_map::keys(view.variables);
        let ghost mut values: Seq<Option<Seq<char>>> = seq![];
        let n = self.variables.len();
        assert(names.take(0) =~= seq![]);
        for k in 0..n
            invariant
                view == self@,
                view.callable(),
                view.variables == self.variables@,
                n == self.variables@.len(),
                names == ordered_map::keys(view.variables),
                values.len() == k,
                system@ == interpolated(base, names.take(k as int), values),
                forall|j: int|
                    0 <= j < k ==> {
                        let upto = interpolated(base, names.take(j), values.take(j));
                        if text::occurs_in(upto, placeholder(names[j])) {
                            provides(view.variables[j].1, #[trigger] values[j])
                        } else {
                            values[j] is None
                        }
                    },
        {
            let (name, provider) = self.variables.at(k);
            let ghost before = values;
            let ghost value: Option<Seq<char>> = None;
            let mark = placeholder_of(name.as_str());
            assert(names.take(k + 1).drop_last() =~= names.take(k as int));
            assert(names.take(k + 1).last() == name@);
            if contains(system.as_str(), mark.as_str()) {
                assert(call_requires(view.variables[k as int].1, ()));
                let given = provider();
                assert(provides(view.variables[k as int].1, text::opt_view(given)));
                if let Some(v) = &given {
                    system = replaced_all(system.as_str(), mark.as_str(), v.as_str());
                }
                proof {
                    values = values.push(text::opt_view(given));
                }
            } else {
                proof {
                    values = values.push(None);
                }
            }
            assert(values.drop_last() =~= before);
            assert(before.take(k as int) =~= before);
            assert forall|j: int| 0 <= j < k + 1 implies {
                let upto = interpolated(base, names.take(j), values.take(j));
                if text::occurs_in(upto, placeholder(names[j])) {
                    provides(view.variables[j].1, #[trigger] values[j])
                } else {
                    values[j] is None
                }
            } by {
                assert(values.take(j) =~= before.take(j));
                if j < k {
                    assert(values[j] == before[j]);
                }
            }
        }
        assert(names.take(names.len() as int) =~= names);
        proof {
            assert forall|j: int| 0 <= j < resolved.len() implies resolves(
                sections[j].text,
                #[trigger] resolved[j],
            ) by {
                assert(resolved[j] == texts@[j]@);
            }
            assert(view.assembled_from(resolved, values, system@));
        }
        PromptAssembly { system }
    }
}

impl<F: Fn() -> String, G: Fn() -> Option<String>> SystemPromptApi<F, G> for SystemPromptService<
    F,
    G,
> {
    open spec fn contributions(&self) -> SystemPromptView<F, G> {
        self@
    }

    open spec fn in_order(&self) -> bool {
        self.well_formed()
    }

    fn section(&mut self, name: &str, order: i32, text: &str, complete: bool) {
        let section = PromptSection {
            name: name.to_owned(),
            order,
            text: PromptText::Static(text.to_owned()),
            complete,
        };
        assert(services::is_static(section, name@, order, text@, complete));
        SystemPromptService::section(self, section);
    }

    fn variable(&mut self, name: &str, provider: G) {
        SystemPromptService::variable(self, name, provider);
    }

    fn assemble(&self) -> (r: PromptAssembly) {
        SystemPromptService::assemble(self)
    }
}

// ---------------------------------------------------------------------------
// laws
// ---------------------------------------------------------------------------

/// The texts of a prompt stand one after the other, an empty line between them;
/// blank ones are left out, and nothing else is.
pub proof fn law_texts_stand_one_after_the_other(texts: Seq<Seq<char>>, t: Seq<char>)
    ensures
        concatenated(seq![]) == Seq::<char>::empty(),
        text::is_blank(t) ==> concatenated(texts.push(t)) == concatenated(texts),
        !text::is_blank(t) && (forall|i: int|
            0 <= i < texts.len() ==> text::is_blank(#[trigger] texts[i])) ==> concatenated(
            texts.push(t),
        ) == t,
        !text::is_blank(t) && (exists|i: int|
            0 <= i < texts.len() && !text::is_blank(#[trigger] texts[i])) ==> concatenated(
            texts.push(t),
        ) == concatenated(texts) + seq!['\n', '\n'] + t,
{
    reveal(Seq::filter);
    reveal_strlit("\n\n");
    assert("\n\n"@ =~= seq!['\n', '\n']);
    let keep = |t: Seq<char>| !text::is_blank(t);
    let none: Seq<Seq<char>> = seq![];
    assert(none.filter(keep) =~= none);
    assert(texts.push(t).drop_last() =~= texts);
    lemma_shown_some(texts);
    if !text::is_blank(t) {
        assert(shown_texts(texts.push(t)) == shown_texts(texts).push(t));
        if shown_texts(texts).len() == 0 {
            assert(shown_texts(texts).push(t) =~= seq![t]);
        } else {
            text::law_joining_keeps_every_part(shown_texts(texts), t, "\n\n"@);
        }
    }
}

proof fn lemma_shown_some(texts: Seq<Seq<char>>)
    ensures
        shown_texts(texts).len() > 0 <==> exists|i: int|
            0 <= i < texts.len() && !text::is_blank(#[trigger] texts[i]),
    decreases texts.len(),
{
    reveal(Seq::filter);
    if texts.len() > 0 {
        let front = texts.drop_last();
        lemma_shown_some(front);
        if shown_texts(front).len() > 0 {
            let i = choose|i: int| 0 <= i < front.len() && !text::is_blank(#[trigger] front[i]);
            assert(texts[i] == front[i]);
        }
        if !text::is_blank(texts.last()) {
            assert(!text::is_blank(texts[texts.len() - 1]));
        }
        if exists|i: int| 0 <= i < texts.len() && !text::is_blank(#[trigger] texts[i]) {
            let i = choose|i: int| 0 <= i < texts.len() && !text::is_blank(#[trigger] texts[i]);
            if i < front.len() {
                assert(!text::is_blank(front[i]));
            }
        }
    }
}

/// A variable is put in wherever its placeholder stands, from the left; the rest
/// of the text stays. Without a value every placeholder stays.
pub proof fn law_variable_is_put_in(
    before: Seq<char>,
    name: Seq<char>,
    value: Seq<char>,
    after: Seq<char>,
)
    requires
        forall|i: int|
            0 <= i < before.len() ==> !text::occurs_at(
                before + placeholder(name) + after,
                placeholder(name),
                i,
            ),
    ensures
        placeholder(name) == seq!['{', '{'] + name + seq!['}', '}'],
        with_variable(before + placeholder(name) + after, name, Some(value)) == before + value
            + with_variable(after, name, Some(value)),
        with_variable(before + placeholder(name) + after, name, None) == before + placeholder(name)
            + after,
{
    reveal_strlit("{{");
    reveal_strlit("}}");
    assert("{{"@ =~= seq!['{', '{']);
    assert("}}"@ =~= seq!['}', '}']);
    text::law_every_occurrence_is_replaced(before, placeholder(name), value, after);
}

/// Variables are put in one after the other, each into what the ones before it
/// left.
pub proof fn law_variables_are_put_in_one_by_one(
    s: Seq<char>,
    names: Seq<Seq<char>>,
    values: Seq<Option<Seq<char>>>,
    name: Seq<char>,
    value: Option<Seq<char>>,
)
    ensures
        interpolated(s, seq![], seq![]) == s,
        interpolated(s, names.push(name), values.push(value)) == with_variable(
            interpolated(s, names, values),
            name,
            value,
        ),
{
    assert(names.push(name).drop_last() =~= names);
    assert(values.push(value).drop_last() =~= values);
}

/// The sections are taken in the order of their ranking: ascending, and those of
/// the same order as they were registered.
pub proof fn law_sections_are_taken_in_order<F>(sections: Seq<PromptSection<F>>, i: int, j: int)
    requires
        0 <= i < j < sections.len(),
    ensures
        in_order(sections).len() == sections.len(),
        in_order(sections)[i].order <= in_order(sections)[j].order,
        sections.contains(in_order(sections)[i]),
        forall|k: int|
            0 <= k < sections.len() && (forall|l: int|
                0 <= l < sections.len() - 1 ==> (#[trigger] sections[l]).order <= sections[l
                    + 1].order) ==> #[trigger] in_order(sections)[k] == sections[k],
{
    let orders = orders_of(sections);
    law_ranking_is_a_stable_sort(orders);
    let r = ranking(orders);
    assert(in_order(sections)[i] == sections[r[i]]);
    assert(orders[r[i]] <= orders[r[j]]);
    if forall|l: int|
        0 <= l < sections.len() - 1 ==> (#[trigger] sections[l]).order <= sections[l + 1].order {
        assert forall|k: int| 0 <= k < sections.len() implies #[trigger] in_order(sections)[k]
            == sections[k] by {
            lemma_sorted_stays(sections, k);
        }
    }
}

proof fn lemma_sorted_orders<F>(sections: Seq<PromptSection<F>>, a: int, b: int)
    requires
        forall|l: int|
            0 <= l < sections.len() - 1 ==> (#[trigger] sections[l]).order <= sections[l + 1].order,
        0 <= a <= b < sections.len(),
    ensures
        sections[a].order <= sections[b].order,
    decreases b - a,
{
    if a < b {
        lemma_sorted_orders(sections, a, b - 1);
        assert(sections[b - 1].order <= sections[b - 1 + 1].order);
    }
}

proof fn lemma_sorted_ranks<F>(sections: Seq<PromptSection<F>>, k: int)
    requires
        forall|l: int|
            0 <= l < sections.len() - 1 ==> (#[trigger] sections[l]).order <= sections[l + 1].order,
        0 <= k < sections.len(),
    ensures
        ranking(orders_of(sections))[k] >= k,
    decreases k,
{
    let orders = orders_of(sections);
    let r = ranking(orders);
    law_ranking_is_a_stable_sort(orders);
    if k > 0 {
        lemma_sorted_ranks(sections, k - 1);
        let a = r[k - 1];
        let b = r[k];
        if b <= a {
            lemma_sorted_orders(sections, b, a);
            assert(orders[a] < orders[b] || (orders[a] == orders[b] && a < b));
        }
    }
}

proof fn lemma_sorted_stays<F>(sections: Seq<PromptSection<F>>, k: int)
    requires
        forall|l: int|
            0 <= l < sections.len() - 1 ==> (#[trigger] sections[l]).order <= sections[l + 1].order,
        0 <= k < sections.len(),
    ensures
        ranking(orders_of(sections))[k] == k,
    decreases sections.len() - k,
{
    let orders = orders_of(sections);
    let r = ranking(orders);
    law_ranking_is_a_stable_sort(orders);
    lemma_sorted_ranks(sections, k);
    if k < sections.len() - 1 {
        lemma_sorted_stays(sections, k + 1);
        let a = r[k];
        let b = r[k + 1];
        assert(b == k + 1);
        if a > k {
            if a >= b {
                lemma_sorted_orders(sections, b, a);
                assert(orders[a] < orders[b] || (orders[a] == orders[b] && a < b));
            }
        }
    }
}

/// The prompt of static sections, none of them complete, without variables, is
/// their texts in order.
pub proof fn law_static_prompt_is_its_sections<F: Fn() -> String, G: Fn() -> Option<String>>(
    v: SystemPromptView<F, G>,
    system: Seq<char>,
)
    requires
        v.may_assemble(system),
        v.variables.len() == 0,
        forall|i: int|
            0 <= i < v.sections.len() ==> (#[trigger] v.sections[i]).text is Static
                && !v.sections[i].complete,
    ensures
        system == concatenated(
            Seq::new(
                v.sections.len(),
                |i: int| in_order(v.sections)[i].text->Static_0@,
            ),
        ),
{
    let sections = in_order(v.sections);
    law_ranking_is_a_stable_sort(orders_of(v.sections));
    assert forall|i: int| 0 <= i < sections.len() implies !(#[trigger] sections[i]).complete
        && sections[i].text is Static by {
        assert(sections[i] == v.sections[ranking(orders_of(v.sections))[i]]);
    }
    lemma_none_complete(sections);
    let (texts, values) = choose|texts: Seq<Seq<char>>, values: Seq<Option<Seq<char>>>|
        v.assembled_from(texts, values, system);
    assert(texts =~= Seq::new(v.sections.len(), |i: int| sections[i].text->Static_0@)) by {
        assert forall|i: int| 0 <= i < texts.len() implies texts[i]
            == sections[i].text->Static_0@ by {
            assert(resolves(sections[i].text, texts[i]));
        }
    }
}

proof fn lemma_none_complete<F>(sections: Seq<PromptSection<F>>)
    requires
        forall|i: int| 0 <= i < sections.len() ==> !(#[trigger] sections[i]).complete,
    ensures
        first_complete(sections) == sections.len(),
    decreases sections.len(),
{
    if sections.len() > 0 {
        assert(!sections[0].complete);
        lemma_none_complete(sections.skip(1));
    }
}

proof fn lemma_first_complete<F>(sections: Seq<PromptSection<F>>, c: int)
    requires
        0 <= c < sections.len(),
        sections[c].complete,
        forall|i: int| 0 <= i < c ==> !(#[trigger] sections[i]).complete,
    ensures
        first_complete(sections) == c,
    decreases c,
{
    if c > 0 {
        assert(!sections[0].complete);
        assert(sections.skip(1)[c - 1] == sections[c]);
        lemma_first_complete(sections.skip(1), c - 1);
    }
}

/// A complete section is the whole prompt: the first of them in order stands
/// alone, whatever else is registered.
pub proof fn law_complete_section_stands_alone<F: Fn() -> String, G: Fn() -> Option<String>>(
    v: SystemPromptView<F, G>,
    c: int,
    system: Seq<char>,
)
    requires
        v.may_assemble(system),
        0 <= c < in_order(v.sections).len(),
        in_order(v.sections)[c].complete,
        forall|i: int| 0 <= i < c ==> !(#[trigger] in_order(v.sections)[i]).complete,
    ensures
        in_order(v.sections)[c].text matches PromptText::Static(text) ==> system == text@,
        in_order(v.sections)[c].text matches PromptText::Dynamic(provider) ==> exists|r: String|
            call_ensures(provider, (), r) && #[trigger] r@ == system,
{
    lemma_first_complete(in_order(v.sections), c);
}

proof fn lemma_named<F>(sections: Seq<PromptSection<F>>, name: Seq<char>)
    ensures
        0 <= named(sections, name) <= sections.len(),
        named(sections, name) < sections.len() ==> sections[named(sections, name)].name@ == name,
        forall|i: int|
            0 <= i < named(sections, name) ==> (#[trigger] sections[i]).name@ != name,
    decreases sections.len(),
{
    if sections.len() > 0 && sections[0].name@ != name {
        lemma_named(sections.skip(1), name);
        assert forall|i: int| 0 <= i < named(sections, name) implies (
        #[trigger] sections[i]).name@ != name by {
            if i > 0 {
                assert(sections.skip(1)[i - 1] == sections[i]);
            }
        }
    }
}

/// A section that is registered is there; it takes the place of the one of its
/// name, and a name that is new goes behind all others, which stay.
pub proof fn law_section_replaces_its_name<F, G>(
    v: SystemPromptView<F, G>,
    section: PromptSection<F>,
)
    ensures
        v.with_section(section).sections.contains(section),
        v.with_section(section).variables == v.variables,
        v.with_section(section).contexts == v.contexts,
        (forall|i: int| 0 <= i < v.sections.len() ==> (#[trigger] v.sections[i]).name@
            != section.name@) ==> v.with_section(section).sections == v.sections.push(section),
        (exists|i: int| 0 <= i < v.sections.len() && (#[trigger] v.sections[i]).name@
            == section.name@) ==> v.with_section(section).sections.len() == v.sections.len(),
        forall|i: int|
            0 <= i < v.sections.len() && v.sections[i].name@ != section.name@ ==> (
            #[trigger] v.with_section(section).sections[i]) == v.sections[i],
{
    let at = named(v.sections, section.name@);
    lemma_named(v.sections, section.name@);
    let after = v.with_section(section).sections;
    assert(after[at] == section);
}

proof fn lemma_named_context<F>(contexts: Seq<PromptContext<F>>, name: Seq<char>)
    ensures
        0 <= named_context(contexts, name) <= contexts.len(),
        named_context(contexts, name) < contexts.len() ==> contexts[named_context(
            contexts,
            name,
        )].name@ == name,
        forall|i: int|
            0 <= i < named_context(contexts, name) ==> (#[trigger] contexts[i]).name@ != name,
    decreases contexts.len(),
{
    if contexts.len() > 0 && contexts[0].name@ != name {
        lemma_named_context(contexts.skip(1), name);
        assert forall|i: int| 0 <= i < named_context(contexts, name) implies (
        #[trigger] contexts[i]).name@ != name by {
            if i > 0 {
                assert(contexts.skip(1)[i - 1] == contexts[i]);
            }
        }
    }
}

/// A context that is registered is there; it takes the place of the one of its
/// name, and a name that is new goes behind all others, which stay.
pub proof fn law_context_replaces_its_name<F, G>(
    v: SystemPromptView<F, G>,
    context: PromptContext<F>,
)
    ensures
        v.with_context(context).contexts.contains(context),
        v.with_context(context).sections == v.sections,
        v.with_context(context).variables == v.variables,
        (forall|i: int| 0 <= i < v.contexts.len() ==> (#[trigger] v.contexts[i]).name@
            != context.name@) ==> v.with_context(context).contexts == v.contexts.push(context),
        (exists|i: int| 0 <= i < v.contexts.len() && (#[trigger] v.contexts[i]).name@
            == context.name@) ==> v.with_context(context).contexts.len() == v.contexts.len(),
        forall|i: int|
            0 <= i < v.contexts.len() && v.contexts[i].name@ != context.name@ ==> (
            #[trigger] v.with_context(context).contexts[i]) == v.contexts[i],
{
    let at = named_context(v.contexts, context.name@);
    lemma_named_context(v.contexts, context.name@);
    let after = v.with_context(context).contexts;
    assert(after[at] == context);
}

/// A variable that is registered has its provider, the latest one; every other
/// variable keeps its own.
pub proof fn law_variable_has_its_provider<F, G>(
    v: SystemPromptView<F, G>,
    name: Seq<char>,
    provider: G,
    other: Seq<char>,
)
    ensures
        ordered_map::lookup(v.with_variable(name, provider).variables, name) == Some(provider),
        other != name ==> ordered_map::lookup(v.with_variable(name, provider).variables, other)
            == ordered_map::lookup(v.variables, other),
        v.with_variable(name, provider).sections == v.sections,
        v.with_variable(name, provider).contexts == v.contexts,
{
    ordered_map::law_insert_then_lookup(v.variables, name, provider, name);
    ordered_map::law_insert_then_lookup(v.variables, name, provider, other);
}

proof fn lemma_values_put_in(
    base: Seq<char>,
    names: Seq<Seq<char>>,
    values: Seq<Option<Seq<char>>>,
    given: Seq<Option<Seq<char>>>,
    n: int,
)
    requires
        names.len() == values.len() == given.len(),
        0 <= n <= names.len(),
        forall|i: int|
            0 <= i < names.len() ==> (#[trigger] values[i] == given[i] || !text::occurs_in(
                interpolated(base, names.take(i), values.take(i)),
                placeholder(names[i]),
            ) && values[i] is None),
    ensures
        interpolated(base, names.take(n), values.take(n)) == interpolated(
            base,
            names.take(n),
            given.take(n),
        ),
    decreases n,
{
    if n == 0 {
        assert(values.take(0) =~= given.take(0));
    } else {
        lemma_values_put_in(base, names, values, given, n - 1);
        let upto = interpolated(base, names.take(n - 1), values.take(n - 1));
        law_variables_are_put_in_one_by_one(
            base,
            names.take(n - 1),
            values.take(n - 1),
            names[n - 1],
            values[n - 1],
        );
        law_variables_are_put_in_one_by_one(
            base,
            names.take(n - 1),
            given.take(n - 1),
            names[n - 1],
            given[n - 1],
        );
        assert(names.take(n) =~= names.take(n - 1).push(names[n - 1]));
        assert(values.take(n) =~= values.take(n - 1).push(values[n - 1]));
        assert(given.take(n) =~= given.take(n - 1).push(given[n - 1]));
        if values[n - 1] != given[n - 1] {
            law_absent_placeholder_changes_nothing(upto, names[n - 1], given[n - 1]);
            law_absent_placeholder_changes_nothing(upto, names[n - 1], values[n - 1]);
        }
    }
}

/// In the prompt of static sections, none of them complete, every variable has
/// the value that its provider gives.
pub proof fn law_prompt_has_its_variables_put_in<F: Fn() -> String, G: Fn() -> Option<String>>(
    v: SystemPromptView<F, G>,
    given: Seq<Option<Seq<char>>>,
    system: Seq<char>,
)
    requires
        v.may_assemble(system),
        forall|i: int|
            0 <= i < v.sections.len() ==> (#[trigger] v.sections[i]).text is Static
                && !v.sections[i].complete,
        given.len() == v.variables.len(),
        forall|i: int, value: Option<Seq<char>>|
            0 <= i < given.len() && #[trigger] provides(v.variables[i].1, value) ==> value
                == given[i],
    ensures
        system == interpolated(
            concatenated(
                Seq::new(v.sections.len(), |i: int| in_order(v.sections)[i].text->Static_0@),
            ),
            ordered_map::keys(v.variables),
            given,
        ),
{
    let sections = in_order(v.sections);
    law_ranking_is_a_stable_sort(orders_of(v.sections));
    assert forall|i: int| 0 <= i < sections.len() implies !(#[trigger] sections[i]).complete
        && sections[i].text is Static by {
        assert(sections[i] == v.sections[ranking(orders_of(v.sections))[i]]);
    }
    lemma_none_complete(sections);
    let (texts, values) = choose|texts: Seq<Seq<char>>, values: Seq<Option<Seq<char>>>|
        v.assembled_from(texts, values, system);
    assert(texts =~= Seq::new(v.sections.len(), |i: int| sections[i].text->Static_0@)) by {
        assert forall|i: int| 0 <= i < texts.len() implies texts[i]
            == sections[i].text->Static_0@ by {
            assert(resolves(sections[i].text, texts[i]));
        }
    }
    let names = ordered_map::keys(v.variables);
    let base = concatenated(texts);
    assert forall|i: int| 0 <= i < names.len() implies (#[trigger] values[i] == given[i]
        || !text::occurs_in(
        interpolated(base, names.take(i), values.take(i)),
        placeholder(names[i]),
    ) && values[i] is None) by {
        if text::occurs_in(
            interpolated(base, names.take(i), values.take(i)),
            placeholder(names[i]),
        ) {
            assert(provides(v.variables[i].1, values[i]));
        }
    }
    lemma_values_put_in(base, names, values, given, names.len() as int);
    assert(names.take(names.len() as int) =~= names);
    assert(values.take(names.len() as int) =~= values);
    assert(given.take(names.len() as int) =~= given);
}

} // verus!
