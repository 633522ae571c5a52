//! Migration plans as text.

use vstd::prelude::*;

use crate::digits::{decimal, decimal_of};
use crate::planner::{MigrationPhase, MigrationPlan, PlanError, PlannedNode};
use crate::spaces::{is_blank, is_blank_text};
use crate::text::{concat, holds_part, lemma_part_is_held, owned};

verus! {

impl PlanError {
    /// What the error says.
    pub open spec fn text(self) -> Seq<char> {
        match self {
            PlanError::DuplicateNodes =>
                "nodes list contains duplicates; each node id must be unique"@,
            PlanError::MissingTarget => "target node is not present in the nodes list"@,
            PlanError::UnknownFromNode(id) => "edge references unknown from-node: "@ + id@,
            PlanError::UnknownToNode(id) => "edge references unknown to-node: "@ + id@,
            PlanError::UnknownDependent(node) => "unknown node in downstream graph: "@ + decimal(
                node as nat,
            ),
            PlanError::Cycle => "graph contains a cycle; unable to rank upstream depth"@,
        }
    }

    /// Says why there is no plan.
    pub fn message(&self) -> (message: String)
        ensures
            message@ == self.text(),
    {
        match self {
            PlanError::DuplicateNodes => owned(
                "nodes list contains duplicates; each node id must be unique",
            ),
            PlanError::MissingTarget => owned("target node is not present in the nodes list"),
            PlanError::UnknownFromNode(id) => concat(
                "edge references unknown from-node: ",
                id.as_str(),
            ),
            PlanError::UnknownToNode(id) => concat(
                "edge references unknown to-node: ",
                id.as_str(),
            ),
            PlanError::UnknownDependent(node) => concat(
                "unknown node in downstream graph: ",
                decimal_of(*node as u64).as_str(),
            ),
            PlanError::Cycle => owned("graph contains a cycle; unable to rank upstream depth"),
        }
    }
}

/// Whether there is any input at all: more than white space.
pub fn has_input(text: &str) -> (answer: bool)
    ensures
        answer == !is_blank(text@),
{
    !is_blank_text(text)
}

/// The line of a node.
pub open spec fn node_line(node: PlannedNode) -> Seq<char> {
    let marker = if node.is_target {
        " [target]"@
    } else {
        ""@
    };
    "- "@ + node.repository@ + " | "@ + node.component@ + marker + " (depth="@ + decimal(
        node.downstream_depth as nat,
    ) + ", reach="@ + decimal(node.downstream_reach as nat) + ")\n"@
}

/// The lines of the first `count` nodes.
pub open spec fn node_lines(nodes: Seq<PlannedNode>, count: int) -> Seq<char>
    decreases count,
{
    if count <= 0 {
        Seq::empty()
    } else {
        node_lines(nodes, count - 1) + node_line(nodes[count - 1])
    }
}

/// The paragraph of a phase: an empty line, a heading and a line for every node.
pub open spec fn phase_text(phase: MigrationPhase) -> Seq<char> {
    "\nPhase "@ + decimal(phase.phase as nat) + "\n"@ + node_lines(
        phase.nodes@,
        phase.nodes@.len() as int,
    )
}

/// The paragraphs of the first `count` phases.
pub open spec fn phase_texts(phases: Seq<MigrationPhase>, count: int) -> Seq<char>
    decreases count,
{
    if count <= 0 {
        Seq::empty()
    } else {
        phase_texts(phases, count - 1) + phase_text(phases[count - 1])
    }
}

/// A plan as text.
pub open spec fn plan_text(plan: MigrationPlan) -> Seq<char> {
    "Target: "@ + plan.target@ + "\nPhases: "@ + decimal(plan.phases@.len()) + "\n"@ + phase_texts(
        plan.phases@,
        plan.phases@.len() as int,
    )
}

/// Writes the line of a node.
fn write_node(node: &PlannedNode) -> (line: String)
    ensures
        line@ == node_line(*node),
{
    let mut line = concat("- ", node.repository.as_str());
    line.append(" | ");
    line.append(node.component.as_str());
    line.append(
        if node.is_target {
            " [target]"
        } else {
            ""
        },
    );
    line.append(" (depth=");
    line.append(decimal_of(node.downstream_depth as u64).as_str());
    line.append(", reach=");
    line.append(decimal_of(node.downstream_reach as u64).as_str());
    line.append(")\n");
    line
}

/// Writes the paragraph of a phase.
fn write_phase(phase: &MigrationPhase) -> (text: String)
    ensures
        text@ == phase_text(*phase),
{
    let mut text = concat("\nPhase ", decimal_of(phase.phase as u64).as_str());
    text.append("\n");
    let ghost head = text@;
    let mut at: usize = 0;
    assert(head + node_lines(phase.nodes@, 0) =~= head);
    while at < phase.nodes.len()
        invariant
            at <= phase.nodes@.len(),
            text@ == head + node_lines(phase.nodes@, at as int),
        decreases phase.nodes@.len() - at,
    {
        let ghost before = node_lines(phase.nodes@, at as int);
        let line = write_node(&phase.nodes[at]);
        text.append(line.as_str());
        assert(head + before + line@ =~= head + (before + line@));
        at += 1;
    }
    text
}

/// Writes a plan as text.
pub fn print_text_plan(plan: &MigrationPlan) -> (text: String)
    ensures
        text@ == plan_text(*plan),
{
    let mut text = concat("Target: ", plan.target.as_str());
    text.append("\nPhases: ");
    text.append(decimal_of(plan.phases.len() as u64).as_str());
    text.append("\n");
    let ghost head = text@;
    let mut at: usize = 0;
    assert(head + phase_texts(plan.phases@, 0) =~= head);
    while at < plan.phases.len()
        invariant
            at <= plan.phases@.len(),
            text@ == head + phase_texts(plan.phases@, at as int),
        decreases plan.phases@.len() - at,
    {
        let ghost before = phase_texts(plan.phases@, at as int);
        let paragraph = write_phase(&plan.phases[at]);
        text.append(paragraph.as_str());
        assert(head + before + paragraph@ =~= head + (before + paragraph@));
        at += 1;
    }
    text
}

/// The text of a plan has a line for every node of every phase: the lines of the first nodes of a
/// phase, then that of the next, and so for the phases.
pub proof fn law_every_node_has_its_line(nodes: Seq<PlannedNode>, at: int)
    requires
        0 <= at < nodes.len(),
    ensures
        node_lines(nodes, 0).len() == 0,
        node_lines(nodes, at + 1) == node_lines(nodes, at) + ("- "@ + nodes[at].repository@ + " | "@
            + nodes[at].component@ + (if nodes[at].is_target {
            " [target]"@
        } else {
            ""@
        }) + " (depth="@ + decimal(nodes[at].downstream_depth as nat) + ", reach="@ + decimal(
            nodes[at].downstream_reach as nat,
        ) + ")\n"@),
{
}

/// A plan without phases is its heading, and each phase adds a paragraph: an empty line, its
/// number, and the lines of all its nodes.
pub proof fn law_every_phase_has_its_paragraph(phases: Seq<MigrationPhase>, at: int)
    requires
        0 <= at < phases.len(),
    ensures
        phase_texts(phases, 0).len() == 0,
        phase_texts(phases, at + 1) == phase_texts(phases, at) + ("\nPhase "@ + decimal(
            phases[at].phase as nat,
        ) + "\n"@ + node_lines(phases[at].nodes@, phases[at].nodes@.len() as int)),
{
}

/// The text of a plan names the target and the number of phases, and goes on with all phases.
pub proof fn law_plan_text_holds_all_phases(plan: MigrationPlan)
    ensures
        plan_text(plan) == "Target: "@ + plan.target@ + "\nPhases: "@ + decimal(plan.phases@.len())
            + "\n"@ + phase_texts(plan.phases@, plan.phases@.len() as int),
        ("Target: "@ + plan.target@).is_prefix_of(plan_text(plan)),
        phase_texts(plan.phases@, plan.phases@.len() as int).is_suffix_of(plan_text(plan)),
{
    let text = plan_text(plan);
    let head = "Target: "@ + plan.target@;
    let tail = phase_texts(plan.phases@, plan.phases@.len() as int);
    assert(head =~= text.subrange(0, head.len() as int));
    assert(tail =~= text.subrange(text.len() - tail.len(), text.len() as int));
}

/// An error names the node that it is about.
pub proof fn law_errors_name_the_node(error: PlanError)
    ensures
        ({
            let text = error.text();
            match error {
                PlanError::UnknownFromNode(id) => holds_part(text, id@),
                PlanError::UnknownToNode(id) => holds_part(text, id@),
                PlanError::UnknownDependent(node) => holds_part(text, decimal(node as nat)),
                _ => true,
            }
        }),
{
    let text = error.text();
    match error {
        PlanError::UnknownFromNode(id) => {
            let front = "edge references unknown from-node: "@;
            let back = Seq::<char>::empty();
            assert(text =~= front + id@ + back);
            lemma_part_is_held(front, id@, back);
        },
        PlanError::UnknownToNode(id) => {
            let front = "edge references unknown to-node: "@;
            let back = Seq::<char>::empty();
            assert(text =~= front + id@ + back);
            lemma_part_is_held(front, id@, back);
        },
        PlanError::UnknownDependent(node) => {
            let front = "unknown node in downstream graph: "@;
            let back = Seq::<char>::empty();
            assert(text =~= front + decimal(node as nat) + back);
            lemma_part_is_held(front, decimal(node as nat), back);
        },
        _ => {},
    }
}

} // verus!
