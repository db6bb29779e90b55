//! Human-readable diff rendering for a failed ground-truth validation:
//! the case id, each missing step with its reason, and a short context
//! window of the most recent actions of the log.

use vstd::prelude::*;
use crate::hian::GroundTruth;
use crate::hian::MissingStepSerial;
use crate::record::ActionLogRecord;
use crate::record::RequestPayload;
use crate::sig::bool_text;
use crate::text::fixed_text;
use crate::text::fixed_to_text;
use crate::text::int_text;
use crate::text::int_to_text;
use crate::text::usize_to_text;
use crate::text::str_eq;

verus! {

use vstd::string::StringExecFns;

/// How many of the log's most recent actions a diff shows for context.
pub const CONTEXT_RADIUS: usize = 3;

/// The one-line summary of an action record.
pub open spec fn summary_text(a: ActionLogRecord) -> Seq<char> {
    if a.action@ == "usd_class_transfer"@ {
        let tp = match a.request {
            RequestPayload::UsdClassTransfer { to_perp: Some(b), .. } => b,
            _ => false,
        };
        let usdc = match a.request {
            RequestPayload::UsdClassTransfer { usdc: Some(v), .. } => v as int,
            _ => 0,
        };
        "usd_class_transfer { toPerp: "@ + bool_text(tp) + ", usdc: "@ + fixed_text(usdc) + " }"@
    } else if a.action@ == "perp_orders"@ {
        let coin = match a.request {
            RequestPayload::PerpOrders { orders } => if orders@.len() > 0 {
                match orders@[0].coin {
                    Some(c) => c@,
                    None => "?"@,
                }
            } else {
                "?"@
            },
            _ => "?"@,
        };
        let side = match a.request {
            RequestPayload::PerpOrders { orders } => if orders@.len() > 0 {
                match orders@[0].side {
                    Some(c) => c@,
                    None => "?"@,
                }
            } else {
                "?"@
            },
            _ => "?"@,
        };
        "perp_orders { coin: "@ + coin + ", side: "@ + side + " }"@
    } else {
        a.action@
    }
}

/// Renders the one-line summary of an action record.
pub fn action_summary(a: &ActionLogRecord) -> (r: String)
    ensures
        r@ == summary_text(*a),
{
    if str_eq(a.action.as_str(), "usd_class_transfer") {
        let tp: bool = match &a.request {
            RequestPayload::UsdClassTransfer { to_perp: Some(b), .. } => *b,
            _ => false,
        };
        let usdc: i64 = match &a.request {
            RequestPayload::UsdClassTransfer { usdc: Some(v), .. } => *v,
            _ => 0,
        };
        let mut s = String::new();
        s.append("usd_class_transfer { toPerp: ");
        if tp {
            s.append("true");
        } else {
            s.append("false");
        }
        s.append(", usdc: ");
        let u = fixed_to_text(usdc);
        s.append(u.as_str());
        s.append(" }");
        proof {
            assert(s@ =~= summary_text(*a));
        }
        s
    } else if str_eq(a.action.as_str(), "perp_orders") {
        let coin: &str = match &a.request {
            RequestPayload::PerpOrders { orders } => if orders.len() > 0 {
                match &orders[0].coin {
                    Some(c) => c.as_str(),
                    None => "?",
                }
            } else {
                "?"
            },
            _ => "?",
        };
        let side: &str = match &a.request {
            RequestPayload::PerpOrders { orders } => if orders.len() > 0 {
                match &orders[0].side {
                    Some(c) => c.as_str(),
                    None => "?",
                }
            } else {
                "?"
            },
            _ => "?",
        };
        let mut s = String::new();
        s.append("perp_orders { coin: ");
        s.append(coin);
        s.append(", side: ");
        s.append(side);
        s.append(" }");
        proof {
            assert(s@ =~= summary_text(*a));
        }
        s
    } else {
        let mut s = String::new();
        s.append(a.action.as_str());
        proof {
            assert(s@ =~= summary_text(*a));
        }
        s
    }
}

/// One indented context line: the position, the summary, the timestamp.
pub open spec fn context_line_text(actions: Seq<ActionLogRecord>, i: int) -> Seq<char> {
    "#"@ + int_text(i) + " "@ + summary_text(actions[i]) + " @"@ + int_text(
        actions[i].submit_ts_ms as int,
    )
}

/// Where the context window of a log starts: at most `radius` of the most
/// recent actions are shown.
pub open spec fn context_start(actions: Seq<ActionLogRecord>, radius: int) -> int {
    if radius <= actions.len() {
        actions.len() - radius
    } else {
        0
    }
}

/// The most recent actions of the log, summarized for debugging context.
pub fn context_actions(actions: &Vec<ActionLogRecord>, radius: usize) -> (r: Vec<String>)
    ensures
        r@.len() == actions@.len() - context_start(actions@, radius as int),
        forall|i: int|
            0 <= i < r@.len() ==> (#[trigger] r@[i])@ == context_line_text(
                actions@,
                context_start(actions@, radius as int) + i,
            ),
{
    let start: usize = if radius <= actions.len() {
        actions.len() - radius
    } else {
        0
    };
    let n: usize = actions.len();
    let mut r: Vec<String> = Vec::new();
    let mut i: usize = start;
    while i < n
        invariant
            start <= i <= n == actions@.len(),
            start == context_start(actions@, radius as int),
            r@.len() == i - start,
            forall|j: int|
                0 <= j < r@.len() ==> (#[trigger] r@[j])@ == context_line_text(
                    actions@,
                    start + j,
                ),
        decreases n - i,
    {
        let mut s = String::new();
        s.append("#");
        let it = usize_to_text(i);
        s.append(it.as_str());
        s.append(" ");
        let summ = action_summary(&actions[i]);
        s.append(summ.as_str());
        s.append(" @");
        let ts = int_to_text(actions[i].submit_ts_ms);
        s.append(ts.as_str());
        proof {
            assert(s@ =~= context_line_text(actions@, i as int));
        }
        r.push(s);
        i = i + 1;
    }
    r
}

/// The context block of a diff: each of the most recent actions' lines,
/// indented and terminated, from `from` up to the end of the window.
pub open spec fn context_block_text(actions: Seq<ActionLogRecord>, from: int, upto: int) -> Seq<
    char,
>
    decreases upto - from,
{
    if upto <= from {
        Seq::empty()
    } else {
        context_block_text(actions, from, upto - 1) + "    "@ + context_line_text(
            actions,
            upto - 1,
        ) + "\n"@
    }
}

/// The text a single missing step contributes to the diff: its index,
/// description and reason, then the most recent actions for context.
pub open spec fn missing_block_text(m: MissingStepSerial, actions: Seq<ActionLogRecord>) -> Seq<
    char,
> {
    "\nStep "@ + int_text(m.expect_idx as int) + " expected: "@ + m.description@ + "\n  \u{2717} "@
        + m.reason@ + "\n"@ + context_block_text(
        actions,
        context_start(actions, CONTEXT_RADIUS as int),
        actions.len() as int,
    )
}

pub open spec fn missing_blocks_text(
    missing: Seq<MissingStepSerial>,
    actions: Seq<ActionLogRecord>,
) -> Seq<char>
    decreases missing.len(),
{
    if missing.len() == 0 {
        Seq::empty()
    } else {
        missing_block_text(missing[0], actions) + missing_blocks_text(
            missing.drop_first(),
            actions,
        )
    }
}

/// The case line of a diff.
pub open spec fn case_text(g: GroundTruth) -> Seq<char> {
    match g.case_id {
        Some(c) => c@,
        None => "unknown-case"@,
    }
}

/// The whole diff text of a failed validation.
pub open spec fn diff_text(
    g: GroundTruth,
    actions: Seq<ActionLogRecord>,
    missing: Seq<MissingStepSerial>,
) -> Seq<char> {
    "HiaN FAIL (case "@ + case_text(g) + ")\n"@ + missing_blocks_text(missing, actions)
}

/// Appends the block of one missing step to the diff text.
fn append_missing_block(
    out: &mut String,
    m: &MissingStepSerial,
    context: &Vec<String>,
    Ghost(actions): Ghost<Seq<ActionLogRecord>>,
)
    requires
        context@.len() == actions.len() - context_start(actions, CONTEXT_RADIUS as int),
        forall|j: int|
            0 <= j < context@.len() ==> (#[trigger] context@[j])@ == context_line_text(
                actions,
                context_start(actions, CONTEXT_RADIUS as int) + j,
            ),
    ensures
        final(out)@ == old(out)@ + missing_block_text(*m, actions),
{
    let ghost out0 = out@;
    let ghost start = context_start(actions, CONTEXT_RADIUS as int);
    out.append("\nStep ");
    let it = usize_to_text(m.expect_idx);
    out.append(it.as_str());
    out.append(" expected: ");
    out.append(m.description.as_str());
    out.append("\n  \u{2717} ");
    out.append(m.reason.as_str());
    out.append("\n");
    let ghost head = "\nStep "@ + int_text(m.expect_idx as int) + " expected: "@ + m.description@
        + "\n  \u{2717} "@ + m.reason@ + "\n"@;
    let mut j: usize = 0;
    proof {
        assert(out@ =~= out0 + head + context_block_text(actions, start, start));
    }
    while j < context.len()
        invariant
            j <= context@.len(),
            start == context_start(actions, CONTEXT_RADIUS as int),
            context@.len() == actions.len() - start,
            forall|jj: int|
                0 <= jj < context@.len() ==> (#[trigger] context@[jj])@ == context_line_text(
                    actions,
                    start + jj,
                ),
            out@ == out0 + head + context_block_text(actions, start, start + j),
        decreases context@.len() - j,
    {
        out.append("    ");
        out.append(context[j].as_str());
        out.append("\n");
        proof {
            assert(out@ =~= out0 + head + context_block_text(actions, start, start + j + 1));
        }
        j = j + 1;
    }
    proof {
        assert(out0 + head + context_block_text(actions, start, actions.len() as int) =~= out0 + (
        head + context_block_text(actions, start, actions.len() as int)));
        assert(head + context_block_text(actions, start, actions.len() as int)
            =~= missing_block_text(*m, actions));
    }
}

/// Renders the human-readable diff of a failed validation: the case id,
/// each missing step's description and reason, and a short context window
/// of the log's most recent actions.
pub fn build_diff(
    ground: &GroundTruth,
    actions: &Vec<ActionLogRecord>,
    missing: &Vec<MissingStepSerial>,
) -> (r: String)
    ensures
        r@ == diff_text(*ground, actions@, missing@),
{
    let mut out = String::new();
    out.append("HiaN FAIL (case ");
    match &ground.case_id {
        Some(c) => {
            out.append(c.as_str());
        },
        None => {
            out.append("unknown-case");
        },
    }
    out.append(")\n");
    let context = context_actions(actions, CONTEXT_RADIUS);
    let mut i: usize = 0;
    proof {
        assert(out@ =~= "HiaN FAIL (case "@ + case_text(*ground) + ")\n"@);
        assert(missing@.take(0) =~= Seq::<MissingStepSerial>::empty());
    }
    while i < missing.len()
        invariant
            i <= missing@.len(),
            context@.len() == actions@.len() - context_start(actions@, CONTEXT_RADIUS as int),
            forall|j: int|
                0 <= j < context@.len() ==> (#[trigger] context@[j])@ == context_line_text(
                    actions@,
                    context_start(actions@, CONTEXT_RADIUS as int) + j,
                ),
            out@ == "HiaN FAIL (case "@ + case_text(*ground) + ")\n"@ + missing_blocks_text(
                missing@.take(i as int),
                actions@,
            ),
        decreases missing@.len() - i,
    {
        append_missing_block(&mut out, &missing[i], &context, Ghost(actions@));
        proof {
            assert(missing@.take(i + 1) =~= missing@.take(i as int).push(missing@[i as int]));
            lemma_missing_blocks_push(missing@.take(i as int), missing@[i as int], actions@);
            assert(out@ =~= "HiaN FAIL (case "@ + case_text(*ground) + ")\n"@
                + missing_blocks_text(missing@.take(i + 1), actions@));
        }
        i = i + 1;
    }
    proof {
        assert(missing@.take(missing@.len() as int) =~= missing@);
    }
    out
}

/// Appending one missing step extends the blocks at the end.
proof fn lemma_missing_blocks_push(
    missing: Seq<MissingStepSerial>,
    m: MissingStepSerial,
    actions: Seq<ActionLogRecord>,
)
    ensures
        missing_blocks_text(missing.push(m), actions) == missing_blocks_text(missing, actions)
            + missing_block_text(m, actions),
    decreases missing.len(),
{
    if missing.len() == 0 {
        assert(missing.push(m).len() == 1);
        assert(missing.push(m)[0] == m);
        assert(missing.push(m).drop_first() =~= Seq::<MissingStepSerial>::empty());
        assert(missing_blocks_text(missing.push(m).drop_first(), actions) == Seq::<
            char,
        >::empty());
        assert(missing_blocks_text(missing.push(m), actions) == missing_block_text(m, actions)
            + Seq::<char>::empty());
        assert(missing_block_text(m, actions) + Seq::<char>::empty() =~= missing_block_text(
            m,
            actions,
        ));
        assert(missing_blocks_text(missing, actions) == Seq::<char>::empty());
        assert(Seq::<char>::empty() + missing_block_text(m, actions) =~= missing_block_text(
            m,
            actions,
        ));
    } else {
        assert(missing.push(m)[0] == missing[0]);
        assert(missing.push(m).drop_first() =~= missing.drop_first().push(m));
        lemma_missing_blocks_push(missing.drop_first(), m, actions);
        assert(missing_blocks_text(missing.push(m), actions) =~= missing_blocks_text(
            missing,
            actions,
        ) + missing_block_text(m, actions));
    }
}

} // verus!
