//! What the reports tell: everything that they were given to tell, by its name.
use vstd::prelude::*;
use crate::brief::{brief_text, brief_words, end_line};
use crate::cli::{shows, Shown};
use crate::mcp::{told, Tool};
use crate::proto::{
    BriefInfo, ConflictEntry, DiffEntry, PromoteInfo, Reply, RestoreInfo, RewindInfo, TimelineEntry,
};
use crate::report::{
    age_text, change_tag, conflict_lines, conflict_text, diff_line, diff_lines, diff_text, kept_text,
    label_text, restored_line, rewound_text, short_generation, timeline_line, timeline_lines,
    timeline_text,
};
use crate::text::{
    begins, contains_text, decimal, decimal_nat, joined_texts, law_joined_texts_hold_each, lemma_contained,
    occurs_at, padded, texts,
};

verus! {

/// A text occurs in itself.
proof fn lemma_itself(s: Seq<char>)
    ensures
        contains_text(s, s),
{
    assert(s.subrange(0, s.len() as int) =~= s);
    assert(occurs_at(s, s, 0));
}

/// A text occurs in what stands around it.
proof fn lemma_around(before: Seq<char>, middle: Seq<char>, after: Seq<char>)
    ensures
        contains_text(before + middle + after, middle),
{
    lemma_itself(middle);
    lemma_contained(before, middle, after, middle);
}

proof fn lemma_diff_line(entries: Seq<DiffEntry>, marks: bool, i: int)
    requires
        0 <= i < entries.len(),
    ensures
        contains_text(diff_lines(entries, marks), diff_line(entries[i], marks)),
    decreases entries.len(),
{
    let rest = diff_lines(entries.drop_last(), marks);
    let line = diff_line(entries.last(), marks);
    if i == entries.len() - 1 {
        lemma_around(rest, line, Seq::empty());
        assert(rest + line + Seq::<char>::empty() =~= diff_lines(entries, marks));
    } else {
        lemma_diff_line(entries.drop_last(), marks, i);
        lemma_contained(Seq::empty(), rest, line, diff_line(entries[i], marks));
        assert(Seq::<char>::empty() + rest + line =~= diff_lines(entries, marks));
    }
}

/// The letter that a change is printed with.
pub open spec fn letter(change: Seq<char>) -> Seq<char> {
    if change == "added"@ {
        seq!['A']
    } else if change == "removed"@ {
        seq!['D']
    } else if change == "modified"@ {
        seq!['M']
    } else {
        seq!['m']
    }
}

/// A comparison prints every path with the letter of what became of it.
pub proof fn law_comparison_prints_every_path(entries: Seq<DiffEntry>, i: int)
    requires
        0 <= i < entries.len(),
    ensures
        contains_text(diff_text(entries), letter(entries[i].change@) + seq![' '] + entries[i].path@),
{
    reveal_strlit("A");
    reveal_strlit("D");
    reveal_strlit("M");
    reveal_strlit("m");
    reveal_strlit(" ");
    let e = entries[i];
    let part = letter(e.change@) + seq![' '] + e.path@;
    let line = diff_line(e, true);
    let lines = diff_lines(entries, true);
    assert(change_tag(e.change@) =~= letter(e.change@));
    assert(" "@ =~= seq![' ']);
    let rest = line.skip(part.len() as int);
    assert(line =~= part + rest);
    lemma_around(Seq::empty(), part, rest);
    assert(Seq::<char>::empty() + part + rest =~= line);
    lemma_diff_line(entries, true, i);
    let at = choose|at: int| occurs_at(lines, line, at);
    let (head, tail) = (lines.take(at), lines.skip(at + line.len()));
    assert(head + line + tail =~= lines);
    lemma_contained(head, line, tail, part);
    let text = diff_text(entries);
    let end = text.skip(lines.len() as int);
    assert(text =~= Seq::<char>::empty() + lines + end);
    lemma_contained(Seq::empty(), lines, end, part);
}

proof fn lemma_timeline_line(entries: Seq<TimelineEntry>, now: i64, i: int)
    requires
        0 <= i < entries.len(),
    ensures
        contains_text(timeline_lines(entries, now), timeline_line(entries[i], now)),
    decreases entries.len(),
{
    let rest = timeline_lines(entries.drop_last(), now);
    let line = timeline_line(entries.last(), now);
    if i == entries.len() - 1 {
        lemma_around(rest, line, Seq::empty());
        assert(rest + line + Seq::<char>::empty() =~= timeline_lines(entries, now));
    } else {
        lemma_timeline_line(entries.drop_last(), now, i);
        lemma_contained(Seq::empty(), rest, line, timeline_line(entries[i], now));
        assert(Seq::<char>::empty() + rest + line =~= timeline_lines(entries, now));
    }
}

proof fn lemma_inside(whole: Seq<char>, middle: Seq<char>, part: Seq<char>)
    requires
        contains_text(whole, middle),
        contains_text(middle, part),
    ensures
        contains_text(whole, part),
{
    let at = choose|at: int| occurs_at(whole, middle, at);
    let (head, tail) = (whole.take(at), whole.skip(at + middle.len()));
    assert(head + middle + tail =~= whole);
    lemma_contained(head, middle, tail, part);
}

/// The timeline prints every checkpoint with its number, its kind and what it is
/// told by: its label where it has one, else its tool, else why it failed. One
/// that is not published says so.
pub proof fn law_timeline_prints_every_checkpoint(entries: Seq<TimelineEntry>, now: i64, i: int)
    requires
        0 <= i < entries.len(),
    ensures
        contains_text(timeline_text(entries, now), seq!['#'] + decimal(entries[i].id as int)),
        contains_text(timeline_text(entries, now), entries[i].kind@),
        entries[i].label matches Some(label) ==> contains_text(timeline_text(entries, now), label@),
        entries[i].label is None && entries[i].tool_name is Some ==> contains_text(
            timeline_text(entries, now),
            entries[i].tool_name->0@,
        ),
        entries[i].label is None && entries[i].tool_name is None && entries[i].error is Some
            ==> contains_text(timeline_text(entries, now), entries[i].error->0@),
        !entries[i].published ==> contains_text(timeline_text(entries, now), "(unpublished)"@),
{
    let e = entries[i];
    let text = timeline_text(entries, now);
    let line = timeline_line(e, now);
    lemma_timeline_line(entries, now, i);
    lemma_line_number(e, now);
    lemma_line_kind(e, now);
    lemma_line_label(e, now);
    lemma_line_mark(e, now);
    lemma_inside(text, line, seq!['#'] + decimal(e.id as int));
    lemma_inside(text, line, e.kind@);
    lemma_inside(text, line, label_text(e));
    if e.label is None && e.tool_name is None && e.error is Some {
        let error = e.error->0@;
        lemma_around("error: "@, error, Seq::empty());
        assert("error: "@ + error + Seq::<char>::empty() =~= label_text(e));
        lemma_inside(text, label_text(e), error);
    }
    if !e.published {
        lemma_inside(text, line, "(unpublished)"@);
    }
}

/// What stands before the kind in the line of a checkpoint.
spec fn line_head(e: TimelineEntry, now: i64) -> Seq<char> {
    "#"@ + padded(decimal(e.id as int), 5) + " "@ + padded(age_text(now, e.created_at), 10) + " "@
}

/// What stands between the kind and the label.
spec fn line_turn(e: TimelineEntry) -> Seq<char> {
    " "@ + padded(crate::report::turn_mark(e.turn), 4) + " "@
}

/// What stands after the label.
spec fn line_end(e: TimelineEntry) -> Seq<char> {
    (if e.published { ""@ } else { "  (unpublished)"@ }) + "\n"@
}

proof fn lemma_line(e: TimelineEntry, now: i64)
    ensures
        timeline_line(e, now) == line_head(e, now) + padded(e.kind@, 9) + (line_turn(e)
            + label_text(e) + line_end(e)),
{
    assert(timeline_line(e, now) =~= line_head(e, now) + padded(e.kind@, 9) + (line_turn(e)
        + label_text(e) + line_end(e)));
}

proof fn lemma_line_number(e: TimelineEntry, now: i64)
    ensures
        contains_text(timeline_line(e, now), seq!['#'] + decimal(e.id as int)),
{
    reveal_strlit("#");
    lemma_line(e, now);
    let number = decimal(e.id as int);
    let first = seq!['#'] + number;
    let head = line_head(e, now);
    assert(head.take(first.len() as int) =~= first);
    assert(head =~= Seq::<char>::empty() + first + head.skip(first.len() as int));
    lemma_around(Seq::empty(), first, head.skip(first.len() as int));
    let rest = padded(e.kind@, 9) + (line_turn(e) + label_text(e) + line_end(e));
    lemma_contained(Seq::empty(), head, rest, first);
    assert(Seq::<char>::empty() + head + rest =~= timeline_line(e, now));
}

proof fn lemma_line_kind(e: TimelineEntry, now: i64)
    ensures
        contains_text(timeline_line(e, now), e.kind@),
{
    lemma_line(e, now);
    let wide = padded(e.kind@, 9);
    assert(wide.take(e.kind@.len() as int) =~= e.kind@);
    assert(wide =~= Seq::<char>::empty() + e.kind@ + wide.skip(e.kind@.len() as int));
    lemma_around(Seq::empty(), e.kind@, wide.skip(e.kind@.len() as int));
    lemma_contained(
        line_head(e, now),
        wide,
        line_turn(e) + label_text(e) + line_end(e),
        e.kind@,
    );
}

proof fn lemma_line_label(e: TimelineEntry, now: i64)
    ensures
        contains_text(timeline_line(e, now), label_text(e)),
{
    lemma_line(e, now);
    let before = line_head(e, now) + padded(e.kind@, 9) + line_turn(e);
    assert(timeline_line(e, now) =~= before + label_text(e) + line_end(e));
    lemma_around(before, label_text(e), line_end(e));
}

proof fn lemma_line_mark(e: TimelineEntry, now: i64)
    ensures
        !e.published ==> contains_text(timeline_line(e, now), "(unpublished)"@),
{
    if !e.published {
        reveal_strlit("  (unpublished)");
        reveal_strlit("(unpublished)");
        lemma_line(e, now);
        let end = line_end(e);
        let mark = "  (unpublished)"@;
        assert(mark =~= mark.take(2) + "(unpublished)"@);
        assert(end =~= mark.take(2) + "(unpublished)"@ + "\n"@);
        lemma_around(mark.take(2), "(unpublished)"@, "\n"@);
        let before = line_head(e, now) + padded(e.kind@, 9) + line_turn(e) + label_text(e);
        assert(timeline_line(e, now) =~= before + end + Seq::<char>::empty());
        lemma_contained(before, end, Seq::empty(), "(unpublished)"@);
    }
}

/// Ages are told in the largest unit of which at least one has passed, and never
/// as less than nothing: what lies ahead is told as now.
pub proof fn law_ages_are_told_in_the_largest_unit(now: i64, at: i64, n: nat)
    ensures
        now <= at ==> age_text(now, at) == decimal_nat(0) + "s ago"@,
        now - at == n && n < 60 ==> age_text(now, at) == decimal_nat(n) + "s ago"@,
        1 <= n < 60 && 60 * n <= now - at < 60 * (n + 1) ==> age_text(now, at) == decimal_nat(n)
            + "m ago"@,
        1 <= n < 24 && 3600 * n <= now - at < 3600 * (n + 1) ==> age_text(now, at) == decimal_nat(n)
            + "h ago"@,
        1 <= n && 86_400 * n <= now - at < 86_400 * (n + 1) ==> age_text(now, at) == decimal_nat(n)
            + "d ago"@,
{
}

/// A restored path is told by its name and the checkpoint it came from, and as
/// removed exactly if the checkpoint did not hold it.
pub proof fn law_restored_path_is_told(info: RestoreInfo)
    ensures
        contains_text(restored_line(info), info.path@),
        contains_text(restored_line(info), seq!['#'] + decimal(info.checkpoint as int)),
        info.action@ == "removed"@ ==> contains_text(restored_line(info), "removed"@),
{
    reveal_strlit(": absent at #");
    reveal_strlit(": restored from #");
    reveal_strlit(", removed");
    reveal_strlit("removed");
    let line = restored_line(info);
    let number = seq!['#'] + decimal(info.checkpoint as int);
    let path = info.path@;
    assert(line =~= Seq::<char>::empty() + path + line.skip(path.len() as int)) by {
        assert(line.take(path.len() as int) =~= path);
    }
    lemma_around(Seq::empty(), path, line.skip(path.len() as int));
    if info.action@ == "removed"@ {
        let lead = ": absent at #"@;
        let head = path + lead.drop_last();
        assert(lead =~= lead.drop_last() + seq!['#']);
        assert(line =~= head + number + ", removed"@);
        lemma_around(head, number, ", removed"@);
        let before = head + number + ", removed"@.take(2);
        assert(", removed"@ =~= ", removed"@.take(2) + "removed"@);
        assert(line =~= before + "removed"@ + Seq::<char>::empty());
        lemma_around(before, "removed"@, Seq::empty());
    } else {
        let lead = ": restored from #"@;
        let head = path + lead.drop_last();
        assert(lead =~= lead.drop_last() + seq!['#']);
        assert(line =~= head + number + Seq::<char>::empty());
        lemma_around(head, number, Seq::empty());
    }
}

/// A rewind is told by the checkpoint it went to, with where the old tree is
/// kept.
pub proof fn law_rewind_is_told_with_the_old_tree(info: RewindInfo)
    ensures
        contains_text(rewound_text(info), decimal(info.restored_checkpoint as int)),
        contains_text(rewound_text(info), info.old_tree@),
        contains_text(rewound_text(info), info.warning@),
{
    let text = rewound_text(info);
    let a = "restored checkpoint #"@;
    let number = decimal(info.restored_checkpoint as int);
    let b = "\nold tree kept at "@;
    let c = "\nnote: "@;
    assert(text =~= a + number + (b + info.old_tree@ + c + info.warning@));
    lemma_around(a, number, b + info.old_tree@ + c + info.warning@);
    assert(text =~= (a + number + b) + info.old_tree@ + (c + info.warning@));
    lemma_around(a + number + b, info.old_tree@, c + info.warning@);
    assert(text =~= (a + number + b + info.old_tree@ + c) + info.warning@ + Seq::<char>::empty());
    lemma_around(a + number + b + info.old_tree@ + c, info.warning@, Seq::empty());
}

proof fn lemma_conflict(conflicts: Seq<ConflictEntry>, i: int)
    requires
        0 <= i < conflicts.len(),
    ensures
        contains_text(conflict_lines(conflicts), conflicts[i].path@),
    decreases conflicts.len(),
{
    let rest = conflict_lines(conflicts.drop_last());
    let c = conflicts.last();
    let line = "  "@ + c.path@ + ": "@ + c.detail@ + "\n"@;
    if i == conflicts.len() - 1 {
        let tail = ": "@ + c.detail@ + "\n"@;
        assert(rest + line =~= (rest + "  "@) + c.path@ + tail);
        lemma_around(rest + "  "@, c.path@, tail);
    } else {
        lemma_conflict(conflicts.drop_last(), i);
        lemma_contained(Seq::empty(), rest, line, conflicts[i].path@);
        assert(Seq::<char>::empty() + rest + line =~= rest + line);
    }
}

/// A conflict is told with every conflicting path and where to resolve it.
pub proof fn law_conflict_is_told_with_every_path(
    id: Seq<char>,
    info: PromoteInfo,
    kept: Seq<char>,
    i: int,
)
    requires
        0 <= i < info.conflicts@.len(),
    ensures
        contains_text(conflict_text(id, info, kept), info.conflicts@[i].path@),
        info.fork_path matches Some(path) ==> contains_text(conflict_text(id, info, kept), path@),
{
    let text = conflict_text(id, info, kept);
    let a = "promote fork "@ + id + ": "@ + decimal_nat(info.conflicts@.len())
        + " file(s) conflict; markers written into the fork, nothing landed\n"@;
    let lines = conflict_lines(info.conflicts@);
    let b = "Resolve the markers in "@;
    let place = match info.fork_path {
        Some(path) => path@,
        None => "the fork"@,
    };
    let c = " and run `acyclic promote "@ + id + "` again (the fork now sits on "@
        + short_generation(info.generation@) + ")"@ + (if kept.len() == 0 {
        Seq::empty()
    } else {
        "\n"@ + kept
    });
    lemma_conflict(info.conflicts@, i);
    assert(text =~= a + lines + (b + place + c));
    lemma_contained(a, lines, b + place + c, info.conflicts@[i].path@);
    assert(text =~= (a + lines + b) + place + c);
    lemma_around(a + lines + b, place, c);
}

/// What the mainline kept is told path by path.
pub proof fn law_kept_paths_are_told(kept: Seq<String>, i: int)
    requires
        0 <= i < kept.len(),
    ensures
        contains_text(kept_text(kept), kept[i]@),
{
    let a = "kept the mainline's copy of "@ + decimal_nat(kept.len())
        + " gitignored path(s) both sides changed: "@;
    let list = joined_texts(texts(kept), ", "@);
    assert(texts(kept).len() == kept.len());
    assert(texts(kept)[i] == kept[i]@);
    law_joined_texts_hold_each(texts(kept), ", "@, i);
    lemma_contained(a, list, "\n"@, kept[i]@);
    assert(kept_text(kept) =~= a + list + "\n"@);
}

/// A command prints the comparison, the timeline or the rewind it was answered
/// with, each with all that was to tell; a promotion that opened a conflict is a
/// failure that names every conflicting path, and one that landed is none.
pub proof fn law_commands_print_what_they_were_answered(
    shown: Shown,
    reply: Reply,
    now: i64,
    size: Seq<char>,
    described: Seq<char>,
    r: Result<String, String>,
)
    requires
        shows(shown, reply, now, size, described, r),
    ensures
        (shown is Diff && reply is Diff) ==> (r matches Ok(text) && forall|i: int|
            0 <= i < reply->Diff_0@.len() ==> contains_text(
                text@,
                letter((#[trigger] reply->Diff_0@[i]).change@) + seq![' '] + reply->Diff_0@[i].path@,
            )),
        (shown is Timeline && reply is Timeline) ==> (r matches Ok(text) && forall|i: int|
            0 <= i < reply->Timeline_0@.len() ==> contains_text(
                text@,
                seq!['#'] + decimal((#[trigger] reply->Timeline_0@[i]).id as int),
            )),
        (shown is Rewind && reply is Rewind) ==> (r matches Ok(text) && contains_text(
            text@,
            reply->Rewind_0.old_tree@,
        )),
        (shown is Restore && reply is Restore) ==> (r matches Ok(text) && contains_text(
            text@,
            reply->Restore_0.path@,
        )),
        (shown is Promote && reply is Promote) ==> {
            let conflicts = reply->Promote_0.conflicts@;
            &&& r is Ok <==> conflicts.len() == 0
            &&& r matches Err(message) ==> forall|i: int|
                0 <= i < conflicts.len() ==> contains_text(
                    message@,
                    (#[trigger] conflicts[i]).path@,
                )
        },
        (shown is Diff && reply is Timeline) || (shown is Timeline && reply is Diff) ==> r is Err,
{
    if shown is Diff && reply is Diff {
        let entries = reply->Diff_0@;
        assert forall|i: int| 0 <= i < entries.len() implies contains_text(
            diff_text(entries),
            letter((#[trigger] entries[i]).change@) + seq![' '] + entries[i].path@,
        ) by {
            law_comparison_prints_every_path(entries, i);
        }
    }
    if shown is Timeline && reply is Timeline {
        let entries = reply->Timeline_0@;
        assert forall|i: int| 0 <= i < entries.len() implies contains_text(
            timeline_text(entries, now),
            seq!['#'] + decimal((#[trigger] entries[i]).id as int),
        ) by {
            law_timeline_prints_every_checkpoint(entries, now, i);
        }
    }
    if shown is Rewind && reply is Rewind {
        let info = reply->Rewind_0;
        law_rewind_is_told_with_the_old_tree(info);
        lemma_contained(Seq::empty(), rewound_text(info), "\n"@, info.old_tree@);
        assert(Seq::<char>::empty() + rewound_text(info) + "\n"@ =~= rewound_text(info) + "\n"@);
    }
    if shown is Restore && reply is Restore {
        let info = reply->Restore_0;
        law_restored_path_is_told(info);
        let text = crate::report::restore_text(info);
        let rest = text.skip(restored_line(info).len() as int);
        assert(text =~= Seq::<char>::empty() + restored_line(info) + rest);
        lemma_contained(Seq::empty(), restored_line(info), rest, info.path@);
    }
    if shown is Promote && reply is Promote {
        let info = reply->Promote_0;
        let id = shown->id;
        if let Err(message) = r {
            let kept = if info.kept_mainline@.len() == 0 {
                Seq::empty()
            } else {
                crate::text::end_trimmed(kept_text(info.kept_mainline@))
            };
            assert forall|i: int| 0 <= i < info.conflicts@.len() implies contains_text(
                message@,
                (#[trigger] info.conflicts@[i]).path@,
            ) by {
                law_conflict_is_told_with_every_path(id@, info, kept, i);
            }
        }
    }
}

/// An assistant is told the number of the checkpoint it took, every path of a
/// comparison, and where the old tree is kept after a rewind; a reply of another
/// kind is not told as if it were one.
pub proof fn law_tools_tell_what_they_were_answered(tool: Tool, reply: Reply, now: i64)
    ensures
        (tool is Checkpoint && reply is Checkpoint) ==> (told(tool, reply, now) matches Some(text)
            && contains_text(text, decimal(reply->Checkpoint_0.row_id as int))),
        (tool is Diff && reply is Diff) ==> (told(tool, reply, now) matches Some(text) && forall|i: int|
            0 <= i < reply->Diff_0@.len() ==> contains_text(
                text,
                (#[trigger] reply->Diff_0@[i]).path@,
            )),
        (tool is Rewind && reply is Rewind) ==> (told(tool, reply, now) matches Some(text)
            && contains_text(text, reply->Rewind_0.old_tree@)),
        (tool is Diff && !(reply is Diff)) || (tool is Rewind && !(reply is Rewind)) || (tool
            is Checkpoint && !(reply is Checkpoint)) ==> told(tool, reply, now) is None,
{
    if tool is Checkpoint && reply is Checkpoint {
        let info = reply->Checkpoint_0;
        let number = decimal(info.row_id as int);
        let rest = " ("@ + info.generation@ + ")"@;
        lemma_around("checkpoint #"@, number, rest);
        assert("checkpoint #"@ + number + rest =~= told(tool, reply, now)->0);
    }
    if tool is Diff && reply is Diff {
        let entries = reply->Diff_0@;
        let lines = crate::mcp::diff_lines(entries);
        assert forall|i: int| 0 <= i < entries.len() implies contains_text(
            told(tool, reply, now)->0,
            (#[trigger] entries[i]).path@,
        ) by {
            let e = entries[i];
            assert(lines.len() == entries.len());
            assert(lines[i] == crate::mcp::diff_line(e));
            law_joined_texts_hold_each(lines, "\n"@, i);
            lemma_mcp_line(e);
            lemma_inside(joined_texts(lines, "\n"@), lines[i], e.path@);
        }
    }
    if tool is Rewind && reply is Rewind {
        law_rewind_is_told_with_the_old_tree(reply->Rewind_0);
    }
}

proof fn lemma_mcp_line(e: DiffEntry)
    ensures
        contains_text(crate::mcp::diff_line(e), e.path@),
{
    let line = crate::mcp::diff_line(e);
    let head = e.change@ + " "@;
    let rest = line.skip((head.len() + e.path@.len()) as int);
    assert(line =~= head + e.path@ + rest);
    lemma_around(head, e.path@, rest);
}

/// The brief in words names the session and the checkpoint it ended at, and says
/// so first; where all of it fits, nothing is cut.
pub proof fn law_brief_names_where_it_ended(info: BriefInfo)
    requires
        info.session is Some,
    ensures
        contains_text(brief_words(info), info.session->0.session_id@),
        info.session->0.end_checkpoint matches Some(id) ==> contains_text(
            brief_words(info),
            seq!['#'] + decimal(id as int),
        ),
        begins(brief_words(info), "previous session "@ + info.session->0.session_id@),
        begins(brief_words(info), brief_text(info)),
        vstd::utf8::encode_utf8(brief_words(info)).len() <= 1000 ==> brief_text(info)
            == brief_words(info),
{
    reveal_strlit("ended at checkpoint #");
    let s = info.session->0;
    let words = brief_words(info);
    let line = end_line(s);
    let rest = words.skip(line.len() as int);
    assert(words =~= Seq::<char>::empty() + line + rest);
    let first = "previous session "@ + s.session_id@;
    let after = line.skip(first.len() as int);
    assert(line =~= "previous session "@ + s.session_id@ + after);
    lemma_around("previous session "@, s.session_id@, after);
    lemma_contained(Seq::empty(), line, rest, s.session_id@);
    assert(words.subrange(0, first.len() as int) =~= first);
    if let Some(id) = s.end_checkpoint {
        let number = seq!['#'] + decimal(id as int);
        let host = match s.host {
            Some(h) => " ("@ + h@ + ")"@,
            None => Seq::empty(),
        };
        let lead = "ended at checkpoint #"@;
        let head = "previous session "@ + s.session_id@ + host + ": "@ + lead.drop_last();
        let tail = crate::brief::turn_words(s.end_turn, s.end_prompt) + "\n"@;
        assert(lead =~= lead.drop_last() + seq!['#']);
        assert(line =~= head + number + tail);
        lemma_around(head, number, tail);
        lemma_contained(Seq::empty(), line, rest, number);
    }
    crate::text::lemma_fitting(words, crate::brief::BRIEF_BYTES as nat);
}

} // verus!
