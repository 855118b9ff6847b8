//! What a run does to a device, told line by line.

use crate::diff::{SingletonOp, SingletonOpView};
use crate::plan::{Plan, PlanView};
use crate::rows::{Describe, HasId};
use crate::text::{owned, same};
use vstd::prelude::*;
use vstd::string::*;

verus! {

/// What a run does to a device: how many rows it adds, updates and removes, and one line for each
/// of them, which is what `--diff` prints.
#[derive(Debug)]
pub struct ConvergeReport {
    pub added: usize,
    pub updated: usize,
    pub removed: usize,
    pub diff_lines: Vec<String>,
}

/// What a [`ConvergeReport`] is.
#[verifier::ext_equal]
pub struct ReportView {
    pub added: nat,
    pub updated: nat,
    pub removed: nat,
    pub diff_lines: Seq<Seq<char>>,
}

impl DeepView for ConvergeReport {
    type V = ReportView;

    open spec fn deep_view(&self) -> ReportView {
        ReportView {
            added: self.added as nat,
            updated: self.updated as nat,
            removed: self.removed as nat,
            diff_lines: self.diff_lines.deep_view(),
        }
    }
}

impl ReportView {
    /// Whether each action has its line: every line has a sign, and each counter is the number of
    /// lines with its own.
    pub open spec fn wf(self) -> bool {
        &&& self.added == signed(self.diff_lines, '+')
        &&& self.updated == signed(self.diff_lines, '~')
        &&& self.removed == signed(self.diff_lines, '-')
        &&& self.added + self.updated + self.removed == self.diff_lines.len()
    }
}

/// How many of the lines begin with the sign.
pub open spec fn signed(lines: Seq<Seq<char>>, sign: char) -> nat
    decreases lines.len(),
{
    if lines.len() == 0 {
        0
    } else {
        signed(lines.drop_last(), sign) + if lines.last().len() > 0 && lines.last()[0] == sign {
            1nat
        } else {
            0
        }
    }
}

proof fn lemma_signed_push(lines: Seq<Seq<char>>, line: Seq<char>)
    requires
        line.len() > 0,
    ensures
        forall|sign: char| #[trigger]
            signed(lines.push(line), sign) == signed(lines, sign) + if line[0] == sign {
                1nat
            } else {
                0
            },
{
    assert(lines.push(line).drop_last() =~= lines);
}

/// The report of a run that has done nothing yet.
pub open spec fn empty_report() -> ReportView {
    ReportView { added: 0, updated: 0, removed: 0, diff_lines: Seq::empty() }
}

/// The line of a row that is added.
pub open spec fn add_line(table: Seq<char>, row: Seq<char>) -> Seq<char> {
    "+ "@ + table + ": "@ + row
}

/// The line of a row that is updated.
pub open spec fn update_line(table: Seq<char>, id: Seq<char>, row: Seq<char>) -> Seq<char> {
    "~ "@ + table + " ("@ + id + "): "@ + row
}

/// The line of a row that is removed: the row itself, or its `.id` alone where it is not known.
pub open spec fn remove_line(table: Seq<char>, id: Seq<char>, row: Option<Seq<char>>) -> Seq<
    char,
> {
    match row {
        Some(row) => "- "@ + table + ": "@ + row,
        None => "- "@ + table + " ("@ + id + ")"@,
    }
}

/// The first row from `i` on with this `.id`, as it is shown.
pub open spec fn shown_from<C: HasId + Describe>(
    current: Seq<C::V>,
    id: Seq<char>,
    i: int,
) -> Option<Seq<char>>
    decreases current.len() - i,
{
    if i < 0 || i >= current.len() {
        None
    } else if C::id_text(current[i]) == id {
        Some(C::description(current[i]))
    } else {
        shown_from::<C>(current, id, i + 1)
    }
}

/// The lines of a plan, made for the rows `current`.
pub open spec fn plan_lines<C: HasId + Describe, D: Describe>(
    table: Seq<char>,
    current: Seq<C::V>,
    plan: PlanView<D::V>,
) -> Seq<Seq<char>> {
    Seq::new(plan.add.len(), |k: int| add_line(table, D::description(plan.add[k]))) + Seq::new(
        plan.update.len(),
        |k: int| update_line(table, plan.update[k].0, D::description(plan.update[k].1)),
    ) + Seq::new(
        plan.remove.len(),
        |k: int|
            remove_line(table, plan.remove[k], shown_from::<C>(current, plan.remove[k], 0)),
    )
}

/// The report with a plan in it.
pub open spec fn recorded<C: HasId + Describe, D: Describe>(
    report: ReportView,
    table: Seq<char>,
    current: Seq<C::V>,
    plan: PlanView<D::V>,
) -> ReportView {
    ReportView {
        added: report.added + plan.add.len(),
        updated: report.updated + plan.update.len(),
        removed: report.removed + plan.remove.len(),
        diff_lines: report.diff_lines + plan_lines::<C, D>(table, current, plan),
    }
}

/// The report with what is done to an object of which the device has at most one.
pub open spec fn recorded_singleton<D: Describe>(
    report: ReportView,
    table: Seq<char>,
    op: SingletonOpView<D::V>,
) -> ReportView {
    match op {
        SingletonOpView::NoOp => report,
        SingletonOpView::Create(d) => ReportView {
            added: report.added + 1,
            diff_lines: report.diff_lines.push(add_line(table, D::description(d))),
            ..report
        },
        SingletonOpView::Update(id, d) => ReportView {
            updated: report.updated + 1,
            diff_lines: report.diff_lines.push(update_line(table, id, D::description(d))),
            ..report
        },
    }
}

fn write_add_line(table: &str, row: &str) -> (r: String)
    ensures
        r@ == add_line(table@, row@),
        r@.len() > 0 && r@[0] == '+',
{
    proof {
        reveal_strlit("+ ");
    }
    let mut out = owned("+ ");
    out.append(table);
    out.append(": ");
    out.append(row);
    out
}

fn write_update_line(table: &str, id: &str, row: &str) -> (r: String)
    ensures
        r@ == update_line(table@, id@, row@),
        r@.len() > 0 && r@[0] == '~',
{
    proof {
        reveal_strlit("~ ");
    }
    let mut out = owned("~ ");
    out.append(table);
    out.append(" (");
    out.append(id);
    out.append("): ");
    out.append(row);
    out
}

fn write_remove_line(table: &str, id: &str, row: &Option<String>) -> (r: String)
    ensures
        r@ == remove_line(table@, id@, row.deep_view()),
        r@.len() > 0 && r@[0] == '-',
{
    proof {
        reveal_strlit("- ");
    }
    let mut out = owned("- ");
    out.append(table);
    match row {
        Some(row) => {
            out.append(": ");
            out.append(row.as_str());
        },
        None => {
            out.append(" (");
            out.append(id);
            out.append(")");
        },
    }
    out
}

/// The first row with this `.id`, as it is shown.
fn show<C: HasId + Describe>(current: &[C], id: &str) -> (r: Option<String>)
    ensures
        r.deep_view() == shown_from::<C>(current.deep_view(), id@, 0),
{
    let ghost d = current.deep_view();
    let mut i: usize = 0;
    while i < current.len()
        invariant
            i <= current@.len(),
            d == current.deep_view(),
            shown_from::<C>(d, id@, 0) == shown_from::<C>(d, id@, i as int),
        decreases current@.len() - i,
    {
        assert(d[i as int] == current[i as int].deep_view());
        if same(current[i].id(), id) {
            return Some(current[i].describe());
        }
        i = i + 1;
    }
    None
}

fn push_line(lines: &mut Vec<String>, line: String)
    requires
        line@.len() > 0,
    ensures
        final(lines).deep_view() == old(lines).deep_view().push(line@),
        old(lines)@.len() < usize::MAX,
        forall|sign: char| #[trigger]
            signed(final(lines).deep_view(), sign) == signed(old(lines).deep_view(), sign)
                + if line@[0] == sign {
                1nat
            } else {
                0
            },
{
    let ghost before = lines.deep_view();
    let ghost text = line@;
    lines.push(line);
    assert(lines.deep_view() =~= before.push(text));
    proof {
        lemma_signed_push(before, text);
    }
    assert(lines.len() <= usize::MAX);
}

impl ConvergeReport {
    /// The report of a run that has done nothing yet.
    pub fn new() -> (r: ConvergeReport)
        ensures
            r.deep_view() == empty_report(),
            r.deep_view().wf(),
    {
        let r = ConvergeReport { added: 0, updated: 0, removed: 0, diff_lines: Vec::new() };
        assert(r.deep_view() =~= empty_report());
        r
    }

    /// Records a plan that was made for the rows `current`.
    pub fn record<C: HasId + Describe, D: Describe>(
        &mut self,
        table: &str,
        current: &[C],
        plan: &Plan<D>,
    )
        requires
            old(self).deep_view().wf(),
        ensures
            final(self).deep_view() == recorded::<C, D>(
                old(self).deep_view(),
                table@,
                current.deep_view(),
                plan.deep_view(),
            ),
            final(self).deep_view().wf(),
    {
        let ghost start = self.deep_view();
        let ghost v = plan.deep_view();
        let ghost c = current.deep_view();
        let ghost adds = Seq::new(
            v.add.len(),
            |k: int| add_line(table@, D::description(v.add[k])),
        );
        let ghost updates = Seq::new(
            v.update.len(),
            |k: int| update_line(table@, v.update[k].0, D::description(v.update[k].1)),
        );
        let ghost removes = Seq::new(
            v.remove.len(),
            |k: int| remove_line(table@, v.remove[k], shown_from::<C>(c, v.remove[k], 0)),
        );
        let mut i: usize = 0;
        assert(self.diff_lines.deep_view() =~= start.diff_lines + adds.take(0));
        while i < plan.add.len()
            invariant
                i <= plan.add@.len(),
                v == plan.deep_view(),
                adds == Seq::new(
                    v.add.len(),
                    |k: int| add_line(table@, D::description(v.add[k])),
                ),
                self.deep_view().wf(),
                self.added == start.added + i,
                self.updated == start.updated,
                self.removed == start.removed,
                self.diff_lines.deep_view() == start.diff_lines + adds.take(i as int),
            decreases plan.add@.len() - i,
        {
            assert(v.add[i as int] == plan.add[i as int].deep_view());
            push_line(
                &mut self.diff_lines,
                write_add_line(table, plan.add[i].describe().as_str()),
            );
            self.added = self.added + 1;
            assert(self.diff_lines.deep_view() =~= start.diff_lines + adds.take(i + 1));
            i = i + 1;
        }
        assert(adds.take(i as int) =~= adds);
        let ghost had = start.diff_lines + adds;
        let mut j: usize = 0;
        assert(self.diff_lines.deep_view() =~= had + updates.take(0));
        while j < plan.update.len()
            invariant
                j <= plan.update@.len(),
                v == plan.deep_view(),
                updates == Seq::new(
                    v.update.len(),
                    |k: int| update_line(table@, v.update[k].0, D::description(v.update[k].1)),
                ),
                self.deep_view().wf(),
                self.added == start.added + v.add.len(),
                self.updated == start.updated + j,
                self.removed == start.removed,
                self.diff_lines.deep_view() == had + updates.take(j as int),
            decreases plan.update@.len() - j,
        {
            assert(v.update[j as int] == plan.update[j as int].deep_view());
            push_line(
                &mut self.diff_lines,
                write_update_line(
                    table,
                    plan.update[j].0.as_str(),
                    plan.update[j].1.describe().as_str(),
                ),
            );
            self.updated = self.updated + 1;
            assert(self.diff_lines.deep_view() =~= had + updates.take(j + 1));
            j = j + 1;
        }
        assert(updates.take(j as int) =~= updates);
        let ghost had = had + updates;
        let mut n: usize = 0;
        assert(self.diff_lines.deep_view() =~= had + removes.take(0));
        while n < plan.remove.len()
            invariant
                n <= plan.remove@.len(),
                v == plan.deep_view(),
                c == current.deep_view(),
                removes == Seq::new(
                    v.remove.len(),
                    |k: int| remove_line(table@, v.remove[k], shown_from::<C>(c, v.remove[k], 0)),
                ),
                self.deep_view().wf(),
                self.added == start.added + v.add.len(),
                self.updated == start.updated + v.update.len(),
                self.removed == start.removed + n,
                self.diff_lines.deep_view() == had + removes.take(n as int),
            decreases plan.remove@.len() - n,
        {
            assert(v.remove[n as int] == plan.remove[n as int]@);
            let shown = show(current, plan.remove[n].as_str());
            push_line(
                &mut self.diff_lines,
                write_remove_line(table, plan.remove[n].as_str(), &shown),
            );
            self.removed = self.removed + 1;
            assert(self.diff_lines.deep_view() =~= had + removes.take(n + 1));
            n = n + 1;
        }
        assert(removes.take(n as int) =~= removes);
        assert(self.deep_view().diff_lines =~= start.diff_lines + plan_lines::<C, D>(
            table@,
            c,
            v,
        ));
    }

    /// Records what is done to an object of which the device has at most one.
    pub fn record_singleton<D: Describe>(&mut self, table: &str, op: &SingletonOp<D>)
        requires
            old(self).deep_view().wf(),
        ensures
            final(self).deep_view() == recorded_singleton::<D>(
                old(self).deep_view(),
                table@,
                op.deep_view(),
            ),
            final(self).deep_view().wf(),
    {
        match op {
            SingletonOp::NoOp => {},
            SingletonOp::Create(d) => {
                push_line(
                    &mut self.diff_lines,
                    write_add_line(table, d.describe().as_str()),
                );
                self.added = self.added + 1;
            },
            SingletonOp::Update(id, d) => {
                push_line(
                    &mut self.diff_lines,
                    write_update_line(table, id.as_str(), d.describe().as_str()),
                );
                self.updated = self.updated + 1;
            },
        }
    }
}

impl Default for ConvergeReport {
    /// The report of a run that has done nothing yet.
    fn default() -> (r: ConvergeReport)
        ensures
            r.deep_view() == empty_report(),
            r.deep_view().wf(),
    {
        ConvergeReport::new()
    }
}

/// A plan that leaves its table as it is adds nothing to a report.
pub proof fn law_empty_plan_is_silent<C: HasId + Describe, D: Describe>(
    report: ReportView,
    table: Seq<char>,
    current: Seq<C::V>,
    plan: PlanView<D::V>,
)
    requires
        plan.is_empty(),
    ensures
        recorded::<C, D>(report, table, current, plan) == report,
{
    assert(plan_lines::<C, D>(table, current, plan) =~= Seq::<Seq<char>>::empty());
    assert(recorded::<C, D>(report, table, current, plan) =~= report);
}

/// A plan adds to the counters what it does, and to the lines one for each row: first those that
/// are added, then those that are updated, with their ids, then those that are removed, each with
/// what it was.
pub proof fn law_recorded<C: HasId + Describe, D: Describe>(
    report: ReportView,
    table: Seq<char>,
    current: Seq<C::V>,
    plan: PlanView<D::V>,
)
    ensures
        ({
            let after = recorded::<C, D>(report, table, current, plan);
            let n = report.diff_lines.len();
            let (a, u, r) = (plan.add.len(), plan.update.len(), plan.remove.len());
            &&& after.added == report.added + a
            &&& after.updated == report.updated + u
            &&& after.removed == report.removed + r
            &&& after.diff_lines.len() == n + a + u + r
            &&& after.diff_lines.take(n as int) == report.diff_lines
            &&& forall|k: int|
                0 <= k < a ==> after.diff_lines[n + k] == "+ "@ + table + ": "@ + D::description(
                    #[trigger] plan.add[k],
                )
            &&& forall|k: int|
                0 <= k < u ==> after.diff_lines[n + a + k] == "~ "@ + table + " ("@
                    + plan.update[k].0 + "): "@ + D::description((#[trigger] plan.update[k]).1)
            &&& forall|k: int, i: int|
                #![trigger plan.remove[k], current[i]]
                0 <= k < r && 0 <= i < current.len() && C::id_text(current[i]) == plan.remove[k]
                    && (forall|j: int|
                    0 <= j < i ==> C::id_text(#[trigger] current[j]) != plan.remove[k])
                    ==> after.diff_lines[n + a + u + k] == "- "@ + table + ": "@ + C::description(
                    current[i],
                )
        }),
{
    let after = recorded::<C, D>(report, table, current, plan);
    let n = report.diff_lines.len();
    assert(after.diff_lines.take(n as int) =~= report.diff_lines);
    let (a, u, r) = (plan.add.len(), plan.update.len(), plan.remove.len());
    assert forall|k: int, i: int|
        #![trigger plan.remove[k], current[i]]
        0 <= k < r && 0 <= i < current.len() && C::id_text(current[i]) == plan.remove[k] && (
        forall|j: int|
            0 <= j < i ==> C::id_text(#[trigger] current[j]) != plan.remove[k])
            implies after.diff_lines[n + a + u + k] == "- "@ + table + ": "@ + C::description(
        current[i],
    ) by {
        lemma_shown::<C>(current, plan.remove[k], i, 0);
    }
}

proof fn lemma_shown<C: HasId + Describe>(current: Seq<C::V>, id: Seq<char>, i: int, from: int)
    requires
        0 <= from <= i < current.len(),
        C::id_text(current[i]) == id,
        forall|j: int| 0 <= j < i ==> C::id_text(#[trigger] current[j]) != id,
    ensures
        shown_from::<C>(current, id, from) == Some(C::description(current[i])),
    decreases i - from,
{
    if from < i {
        lemma_shown::<C>(current, id, i, from + 1);
    }
}

/// An object of which there is one counts as added or updated, with a line, unless it is left
/// alone.
pub proof fn law_recorded_singleton<D: Describe>(
    report: ReportView,
    table: Seq<char>,
    op: SingletonOpView<D::V>,
)
    ensures
        ({
            let after = recorded_singleton::<D>(report, table, op);
            &&& after.removed == report.removed
            &&& op is NoOp ==> after == report
            &&& op matches SingletonOpView::Create(d) ==> after.added == report.added + 1
                && after.updated == report.updated && after.diff_lines == report.diff_lines.push(
                "+ "@ + table + ": "@ + D::description(d),
            )
            &&& op matches SingletonOpView::Update(id, d) ==> after.updated == report.updated + 1
                && after.added == report.added && after.diff_lines == report.diff_lines.push(
                "~ "@ + table + " ("@ + id + "): "@ + D::description(d),
            )
        }),
{
}

} // verus!
