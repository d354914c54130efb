//! Installing again: what a file becomes that an adapter has written already.
//! Every adapter can be run any number of times, and the file stays, byte for
//! byte, what the first run made it, where serde_json reads back what it wrote:
//! always, but for some numbers with a fraction or an exponent.
use vstd::prelude::*;
use crate::adapters::{
    flat_hooks_failed, flat_hooks_written, hooks_failed, hooks_written, is_document, is_written,
    server_failed, server_written,
};
use crate::install::{
    among_rows, cleared, entries_of, flat_hooked, flat_rows, given, given_all, holds_our_command,
    hook_command, hooked, inner, is_call, is_entry, law_own_entries_are_recognized, nested_rows,
    not_flat_hooked, not_hooked, not_ours, ours, refused, refused_at, takes_entries, EntryShape,
    HookRow,
};
use crate::json::{
    doc, docs, exact, field, field_docs, has_field, keyed, lemma_docs, lemma_field_docs,
    lemma_fields_same, lemma_no_field, lemma_same_fields, member, parsed_json, same_field, Doc,
    Json, DEEPEST,
};
use crate::servers::{holds_texts, is_server, not_served, served, McpConfigShape, McpEntry};

verus! {

/// Whether a file holds no document that serde_json may read back otherwise
/// than it wrote it: none with numbers that have a fraction or an exponent.
pub open spec fn exact_file(existing: Option<Seq<char>>) -> bool {
    existing matches Some(text) ==> (parsed_json(text) matches Ok(d) ==> exact(
        d,
        DEEPEST as nat,
    ))
}

/// Whether serde_json reads a written document back as it was.
pub open spec fn reads_back(written: Json, text: Seq<char>) -> bool {
    parsed_json(text) == Ok::<Doc, Seq<char>>(doc(written))
}

/// Values that say the same say the same of every key.
proof fn lemma_same_member(a: Json, b: Json, key: Seq<char>)
    requires
        doc(a) == doc(b),
    ensures
        match (member(a, key), member(b, key)) {
            (Some(x), Some(y)) => doc(x) == doc(y),
            (None, None) => true,
            _ => false,
        },
{
    if let Json::Object(f) = a {
        if let Json::Object(g) = b {
            lemma_fields_same(f@, g@, key);
        }
    }
}

proof fn lemma_same_command(a: Json, b: Json)
    requires
        doc(a) == doc(b),
    ensures
        holds_our_command(a) == holds_our_command(b),
{
    lemma_same_member(a, b, "command"@);
}

/// Whether an entry is the library's own is told by what it says.
proof fn lemma_same_ours(shape: EntryShape, a: Json, b: Json)
    requires
        doc(a) == doc(b),
    ensures
        ours(shape, a) == ours(shape, b),
{
    match shape {
        EntryShape::Flat => {
            lemma_same_command(a, b);
        },
        EntryShape::Nested => {
            lemma_same_member(a, b, "hooks"@);
            if let Some(Json::List(x)) = member(a, "hooks"@) {
                if let Some(Json::List(y)) = member(b, "hooks"@) {
                    lemma_docs(x@);
                    lemma_docs(y@);
                    assert forall|i: int| 0 <= i < x@.len() implies holds_our_command(
                        #[trigger] x@[i],
                    ) == holds_our_command(y@[i]) by {
                        assert(docs(x@)[i] == docs(y@)[i]);
                        lemma_same_command(x@[i], y@[i]);
                    }
                    if ours(shape, a) {
                        let i = choose|i: int|
                            0 <= i < x@.len() && holds_our_command(#[trigger] x@[i]);
                        assert(holds_our_command(y@[i]));
                    }
                    if ours(shape, b) {
                        let i = choose|i: int|
                            0 <= i < y@.len() && holds_our_command(#[trigger] y@[i]);
                        assert(holds_our_command(x@[i]));
                    }
                }
            }
        },
    }
}

/// Lists that say the same still do so without the library's entries.
proof fn lemma_same_filter(shape: EntryShape, a: Seq<Json>, b: Seq<Json>)
    requires
        docs(a) == docs(b),
    ensures
        docs(a.filter(not_ours(shape))) == docs(b.filter(not_ours(shape))),
    decreases a.len(),
{
    lemma_docs(a);
    lemma_docs(b);
    reveal(Seq::filter);
    if a.len() > 0 {
        let x = a.drop_last();
        let y = b.drop_last();
        assert(x =~= a.subrange(0, a.len() - 1));
        assert(y =~= b.subrange(0, b.len() - 1));
        assert(docs(x) =~= docs(a).drop_last());
        assert(docs(y) =~= docs(b).drop_last());
        lemma_same_filter(shape, x, y);
        assert(docs(a)[a.len() - 1] == docs(b)[b.len() - 1]);
        lemma_same_ours(shape, a.last(), b.last());
        lemma_docs_push(x.filter(not_ours(shape)), a.last());
        lemma_docs_push(y.filter(not_ours(shape)), b.last());
    } else {
        assert(a.filter(not_ours(shape)) =~= b.filter(not_ours(shape)));
    }
}

proof fn lemma_docs_push(items: Seq<Json>, item: Json)
    ensures
        docs(items.push(item)) == docs(items).push(doc(item)),
{
    assert(items.push(item).subrange(0, items.push(item).len() - 1) =~= items);
}

/// Nothing is taken out of a list that holds none of the library's entries.
proof fn lemma_all_kept(shape: EntryShape, items: Seq<Json>)
    requires
        forall|i: int| 0 <= i < items.len() ==> !ours(shape, #[trigger] items[i]),
    ensures
        items.filter(not_ours(shape)) == items,
    decreases items.len(),
{
    reveal(Seq::filter);
    if items.len() > 0 {
        let rest = items.drop_last();
        assert forall|i: int| 0 <= i < rest.len() implies !ours(shape, #[trigger] rest[i]) by {
            assert(rest[i] == items[i]);
        }
        lemma_all_kept(shape, rest);
        assert(!ours(shape, items[items.len() - 1]));
        assert(rest.push(items.last()) =~= items);
    } else {
        assert(items.filter(not_ours(shape)) =~= items);
    }
}

/// What is left of a list holds none of the library's entries.
proof fn lemma_kept_are_others(shape: EntryShape, items: Seq<Json>)
    ensures
        forall|i: int|
            0 <= i < items.filter(not_ours(shape)).len() ==> !ours(
                shape,
                #[trigger] items.filter(not_ours(shape))[i],
            ),
{
    assert forall|i: int| 0 <= i < items.filter(not_ours(shape)).len() implies !ours(
        shape,
        #[trigger] items.filter(not_ours(shape))[i],
    ) by {
        items.lemma_filter_pred(not_ours(shape), i);
    }
}

/// Two fields are all that an object of two fields with these keys has.
proof fn lemma_only_two(fields: Seq<(String, Json)>, a: Seq<char>, b: Seq<char>, key: Seq<char>)
    requires
        fields.len() == 2,
        a != b,
        field(fields, a) is Some,
        field(fields, b) is Some,
        key != a,
        key != b,
    ensures
        field(fields, key) is None,
{
    lemma_no_field(fields, a);
    lemma_no_field(fields, b);
    lemma_no_field(fields, key);
    let i = choose|i: int| #[trigger] keyed(fields, a, i);
    let j = choose|j: int| #[trigger] keyed(fields, b, j);
    if has_field(fields, key) {
        let k = choose|k: int| #[trigger] keyed(fields, key, k);
        assert(i == 0 || i == 1);
        assert(k == i || k == j);
    }
}

proof fn lemma_call_keys()
    ensures
        "type"@ != "command"@,
        "hooks"@ != "matcher"@,
{
    reveal_strlit("type");
    reveal_strlit("command");
    reveal_strlit("hooks");
    reveal_strlit("matcher");
    assert("type"@.len() != "command"@.len());
    assert("hooks"@.len() != "matcher"@.len());
}

/// Calls of one command say the same.
proof fn lemma_same_call(a: Json, b: Json, command: Seq<char>)
    requires
        is_call(a, command),
        is_call(b, command),
    ensures
        doc(a) == doc(b),
{
    lemma_call_keys();
    let f = a->Object_0@;
    let g = b->Object_0@;
    assert forall|key: Seq<char>| #[trigger] same_field(f, g, key) by {
        if key != "type"@ && key != "command"@ {
            lemma_only_two(f, "type"@, "command"@, key);
            lemma_only_two(g, "type"@, "command"@, key);
        }
    }
    lemma_same_fields(f, g);
}

/// The library's entries for one command say the same.
proof fn lemma_same_entry(shape: EntryShape, a: Json, b: Json, tools: bool, command: Seq<char>)
    requires
        is_entry(shape, a, tools, command),
        is_entry(shape, b, tools, command),
    ensures
        doc(a) == doc(b),
{
    match shape {
        EntryShape::Flat => {
            lemma_same_call(a, b, command);
        },
        EntryShape::Nested => {
            lemma_call_keys();
            let f = a->Object_0@;
            let g = b->Object_0@;
            let x = member(a, "hooks"@)->0->List_0@;
            let y = member(b, "hooks"@)->0->List_0@;
            lemma_same_call(x[0], y[0], command);
            lemma_docs(x);
            lemma_docs(y);
            assert(docs(x) =~= docs(y)) by {
                assert(docs(x)[0] == docs(y)[0]);
            }
            assert forall|key: Seq<char>| #[trigger] same_field(f, g, key) by {
                if key != "hooks"@ {
                    if tools {
                        if key != "matcher"@ {
                            lemma_only_two(f, "hooks"@, "matcher"@, key);
                            lemma_only_two(g, "hooks"@, "matcher"@, key);
                        }
                    } else {
                        lemma_only_one(f, "hooks"@, key);
                        lemma_only_one(g, "hooks"@, key);
                    }
                }
            }
            lemma_same_fields(f, g);
        },
    }
}

/// One field is all that an object of one field has.
proof fn lemma_only_one(fields: Seq<(String, Json)>, a: Seq<char>, key: Seq<char>)
    requires
        fields.len() == 1,
        field(fields, a) is Some,
        key != a,
    ensures
        field(fields, key) is None,
{
    lemma_no_field(fields, a);
    lemma_no_field(fields, key);
    let i = choose|i: int| #[trigger] keyed(fields, a, i);
    if has_field(fields, key) {
        let k = choose|k: int| #[trigger] keyed(fields, key, k);
        assert(k == i);
    }
}

/// Giving an event the library's entry again leaves its entries saying what
/// they said.
proof fn lemma_given_again(
    shape: EntryShape,
    before: Seq<(String, Json)>,
    once: Seq<(String, Json)>,
    read: Seq<(String, Json)>,
    twice: Seq<(String, Json)>,
    row: HookRow,
    host: Option<Seq<char>>,
)
    requires
        host matches Some(h) ==> !h.contains(' '),
        given(shape, before, once, row, host),
        field_docs(once) == field_docs(read),
        given(shape, read, twice, row, host),
    ensures
        same_field(once, twice, row.event@),
{
    let event = row.event@;
    let x = field(once, event)->0->List_0@;
    lemma_fields_same(once, read, event);
    let y = field(read, event)->0->List_0@;
    let z = field(twice, event)->0->List_0@;
    assert(docs(x) == docs(y));
    assert(entries_of(read, event) == y);
    let others = entries_of(before, event).filter(not_ours(shape));
    lemma_kept_are_others(shape, entries_of(before, event));
    assert(x.drop_last() == others);
    law_own_entries_are_recognized(shape, x.last(), row.tools, host, row.hook);
    assert(x.filter(not_ours(shape)) == others) by {
        reveal(Seq::filter);
        lemma_all_kept(shape, others);
    }
    lemma_same_filter(shape, x, y);
    assert(docs(z.drop_last()) == docs(x.drop_last()));
    lemma_same_entry(shape, x.last(), z.last(), row.tools, hook_command(host, row.hook));
    lemma_docs_push(x.drop_last(), x.last());
    lemma_docs_push(z.drop_last(), z.last());
    assert(x.drop_last().push(x.last()) =~= x);
    assert(z.drop_last().push(z.last()) =~= z);
}

/// Giving all events of a host the library's entries again changes nothing.
proof fn lemma_all_given_again(
    shape: EntryShape,
    before: Seq<(String, Json)>,
    once: Seq<(String, Json)>,
    read: Seq<(String, Json)>,
    twice: Seq<(String, Json)>,
    rows: Seq<HookRow>,
    host: Option<Seq<char>>,
)
    requires
        host matches Some(h) ==> !h.contains(' '),
        given_all(shape, before, once, rows, rows.len() as int, host),
        field_docs(once) == field_docs(read),
        given_all(shape, read, twice, rows, rows.len() as int, host),
    ensures
        field_docs(once) == field_docs(twice),
{
    assert forall|key: Seq<char>| #[trigger] same_field(once, twice, key) by {
        lemma_fields_same(once, read, key);
        if among_rows(rows, rows.len() as int, key) {
            let i = choose|i: int| 0 <= i < rows.len() && (#[trigger] rows[i]).event@ == key;
            assert(given(shape, before, once, rows[i], host));
            assert(given(shape, read, twice, rows[i], host));
            lemma_given_again(shape, before, once, read, twice, rows[i], host);
        } else {
            assert(field(twice, key) == field(read, key));
        }
    }
    lemma_same_fields(once, twice);
}

/// A document that was given the library's hooks says the same when it is
/// given them again.
proof fn lemma_hooked_again(before: Json, once: Json, read: Json, twice: Json, host: Option<Seq<char>>)
    requires
        host matches Some(h) ==> !h.contains(' '),
        hooked(before, once, host),
        doc(once) == doc(read),
        hooked(read, twice, host),
    ensures
        doc(once) == doc(twice),
{
    let b = before->Object_0@;
    let x = once->Object_0@;
    let y = read->Object_0@;
    let z = twice->Object_0@;
    let rows = nested_rows();
    assert(field_docs(x) == field_docs(y));
    lemma_fields_same(x, y, "hooks"@);
    let h = field(x, "hooks"@)->0->Object_0@;
    let k = field(z, "hooks"@)->0->Object_0@;
    assert(inner(y, "hooks"@) == field(y, "hooks"@)->0->Object_0@);
    lemma_all_given_again(
        EntryShape::Nested,
        inner(b, "hooks"@),
        h,
        inner(y, "hooks"@),
        k,
        rows,
        host,
    );
    assert forall|key: Seq<char>| #[trigger] same_field(x, z, key) by {
        lemma_fields_same(x, y, key);
        if key != "hooks"@ {
            if host == Some("codex"@) && among_rows(rows, rows.len() as int, key) {
                assert(cleared(b, x, key));
                assert(cleared(y, z, key));
                if let Some(Json::List(l)) = field(y, key) {
                    let m = field(x, key)->0->List_0@;
                    assert(docs(m) == docs(l@));
                    lemma_docs(m);
                    lemma_docs(l@);
                    if let Some(Json::List(o)) = field(b, key) {
                        lemma_kept_are_others(EntryShape::Nested, o@);
                    }
                    assert forall|i: int| 0 <= i < l@.len() implies !ours(
                        EntryShape::Nested,
                        #[trigger] l@[i],
                    ) by {
                        assert(docs(m)[i] == docs(l@)[i]);
                        assert(!ours(EntryShape::Nested, m[i]));
                        lemma_same_ours(EntryShape::Nested, m[i], l@[i]);
                    }
                    lemma_all_kept(EntryShape::Nested, l@);
                }
            } else {
                assert(field(z, key) == field(y, key));
            }
        }
    }
    lemma_same_fields(x, z);
}

proof fn lemma_exact_fields(fields: Seq<(String, Json)>, n: nat)
    ensures
        exact(Doc::Object(field_docs(fields)), n) <==> n > 0 && forall|key: Seq<char>|
            (#[trigger] field(fields, key)) matches Some(value) ==> exact(
                doc(value),
                (n - 1) as nat,
            ),
{
    reveal_with_fuel(exact, 2);
    if exact(Doc::Object(field_docs(fields)), n) {
        let d = Doc::Object(field_docs(fields));
        assert(forall|key: Seq<char>|
            d->Object_0.contains_key(key) ==> exact(#[trigger] d->Object_0[key], (n - 1) as nat));
        assert forall|key: Seq<char>| (#[trigger] field(fields, key)) matches Some(
            value,
        ) implies exact(doc(field(fields, key)->0), (n - 1) as nat) by {
            lemma_field_docs(fields, key);
            assert(d->Object_0.contains_key(key));
            assert(exact(d->Object_0[key], (n - 1) as nat));
        }
    }
    if n > 0 && forall|key: Seq<char>|
        (#[trigger] field(fields, key)) matches Some(value) ==> exact(doc(value), (n - 1) as nat) {
        assert forall|key: Seq<char>| field_docs(fields).contains_key(key) implies exact(
            #[trigger] field_docs(fields)[key],
            (n - 1) as nat,
        ) by {
            lemma_field_docs(fields, key);
            assert(field(fields, key) is Some);
        }
    }
}

proof fn lemma_exact_items(items: Seq<Json>, n: nat)
    ensures
        exact(Doc::List(docs(items)), n) <==> n > 0 && forall|i: int|
            0 <= i < items.len() ==> exact(doc(#[trigger] items[i]), (n - 1) as nat),
{
    reveal_with_fuel(exact, 2);
    lemma_docs(items);
    if exact(Doc::List(docs(items)), n) {
        let d = Doc::List(docs(items));
        assert(forall|i: int|
            0 <= i < d->List_0.len() ==> exact(#[trigger] d->List_0[i], (n - 1) as nat));
        assert forall|i: int| 0 <= i < items.len() implies exact(
            doc(#[trigger] items[i]),
            (n - 1) as nat,
        ) by {
            assert(exact(docs(items)[i], (n - 1) as nat));
        }
    }
    if n > 0 && forall|i: int|
        0 <= i < items.len() ==> exact(doc(#[trigger] items[i]), (n - 1) as nat) {
        assert forall|i: int| 0 <= i < docs(items).len() implies exact(
            #[trigger] docs(items)[i],
            (n - 1) as nat,
        ) by {
            assert(exact(doc(items[i]), (n - 1) as nat));
        }
    }
}

proof fn lemma_exact_call(call: Json, command: Seq<char>, n: nat)
    requires
        is_call(call, command),
        n > 0,
    ensures
        exact(doc(call), n),
{
    lemma_call_keys();
    let f = call->Object_0@;
    assert forall|key: Seq<char>| (#[trigger] field(f, key)) matches Some(value) implies exact(
        doc(field(f, key)->0),
        (n - 1) as nat,
    ) by {
        if key != "type"@ && key != "command"@ {
            lemma_only_two(f, "type"@, "command"@, key);
        }
    }
    lemma_exact_fields(f, n);
}

proof fn lemma_exact_entry(shape: EntryShape, entry: Json, tools: bool, command: Seq<char>, n: nat)
    requires
        is_entry(shape, entry, tools, command),
        n > 2,
    ensures
        exact(doc(entry), n),
{
    match shape {
        EntryShape::Flat => {
            lemma_exact_call(entry, command, n);
        },
        EntryShape::Nested => {
            lemma_call_keys();
            let f = entry->Object_0@;
            let hooks = member(entry, "hooks"@)->0->List_0@;
            lemma_exact_call(hooks[0], command, (n - 2) as nat);
            lemma_exact_items(hooks, (n - 1) as nat);
            assert forall|key: Seq<char>| (#[trigger] field(f, key)) matches Some(
                value,
            ) implies exact(doc(field(f, key)->0), (n - 1) as nat) by {
                if key != "hooks"@ {
                    if tools {
                        if key != "matcher"@ {
                            lemma_only_two(f, "hooks"@, "matcher"@, key);
                        }
                    } else {
                        lemma_only_one(f, "hooks"@, key);
                    }
                }
            }
            lemma_exact_fields(f, n);
        },
    }
}

proof fn lemma_exact_given(
    shape: EntryShape,
    before: Seq<(String, Json)>,
    after: Seq<(String, Json)>,
    rows: Seq<HookRow>,
    host: Option<Seq<char>>,
    n: nat,
)
    requires
        given_all(shape, before, after, rows, rows.len() as int, host),
        before.len() == 0 || exact(Doc::Object(field_docs(before)), n),
        n > 5,
    ensures
        exact(Doc::Object(field_docs(after)), n),
{
    lemma_exact_fields(before, n);
    assert forall|key: Seq<char>| (#[trigger] field(after, key)) matches Some(value) implies exact(
        doc(field(after, key)->0),
        (n - 1) as nat,
    ) by {
        if among_rows(rows, rows.len() as int, key) {
            let i = choose|i: int| 0 <= i < rows.len() && (#[trigger] rows[i]).event@ == key;
            assert(given(shape, before, after, rows[i], host));
            let list = field(after, key)->0->List_0@;
            let old_list = entries_of(before, key);
            lemma_exact_entry(
                shape,
                list.last(),
                rows[i].tools,
                hook_command(host, rows[i].hook),
                (n - 2) as nat,
            );
            if old_list.len() > 0 {
                assert(field(before, key) is Some);
                lemma_exact_items(old_list, (n - 1) as nat);
            }
            assert forall|j: int| 0 <= j < list.len() implies exact(
                doc(#[trigger] list[j]),
                (n - 2) as nat,
            ) by {
                if j < list.len() - 1 {
                    assert(list.drop_last()[j] == list[j]);
                    assert(old_list.filter(not_ours(shape)).contains(list[j]));
                    old_list.lemma_filter_contains_rev(not_ours(shape), list[j]);
                    let k = old_list.index_of(list[j]);
                    assert(old_list[k] == list[j]);
                }
            }
            lemma_exact_items(list, (n - 1) as nat);
        } else {
            assert(field(after, key) == field(before, key));
        }
    }
    lemma_exact_fields(after, n);
}

proof fn lemma_exact_cleared(
    before: Seq<(String, Json)>,
    after: Seq<(String, Json)>,
    key: Seq<char>,
    n: nat,
)
    requires
        cleared(before, after, key),
        field(before, key) matches Some(value) ==> exact(doc(value), n),
    ensures
        field(after, key) matches Some(value) ==> exact(doc(value), n),
{
    if let Some(Json::List(l)) = field(before, key) {
        let kept = l@.filter(not_ours(EntryShape::Nested));
        lemma_exact_items(l@, n);
        lemma_exact_items(kept, n);
        assert forall|j: int| 0 <= j < kept.len() implies exact(
            doc(#[trigger] kept[j]),
            (n - 1) as nat,
        ) by {
            assert(kept.contains(kept[j]));
            l@.lemma_filter_contains_rev(not_ours(EntryShape::Nested), kept[j]);
            let k = l@.index_of(kept[j]);
            assert(l@[k] == kept[j]);
        }
    }
}

proof fn lemma_exact_hooked(before: Json, after: Json, host: Option<Seq<char>>, n: nat)
    requires
        hooked(before, after, host),
        exact(doc(before), n),
        n > 6,
    ensures
        exact(doc(after), n),
{
    let b = before->Object_0@;
    let a = after->Object_0@;
    let rows = nested_rows();
    lemma_exact_fields(b, n);
    let h = field(a, "hooks"@)->0->Object_0@;
    assert(field(b, "hooks"@) is Some ==> exact(doc(field(b, "hooks"@)->0), (n - 1) as nat));
    lemma_exact_given(EntryShape::Nested, inner(b, "hooks"@), h, rows, host, (n - 1) as nat);
    assert forall|key: Seq<char>| (#[trigger] field(a, key)) matches Some(value) implies exact(
        doc(field(a, key)->0),
        (n - 1) as nat,
    ) by {
        if key != "hooks"@ {
            if host == Some("codex"@) && among_rows(rows, rows.len() as int, key) {
                assert(cleared(b, a, key));
                assert(field(b, key) matches Some(value) ==> exact(doc(value), (n - 1) as nat));
                lemma_exact_cleared(b, a, key, (n - 1) as nat);
            } else {
                assert(field(a, key) == field(b, key));
            }
        }
    }
    lemma_exact_fields(a, n);
}

/// The document of a file that exists or not is exact where the file is.
proof fn lemma_exact_document(existing: Option<Seq<char>>, json: Json)
    requires
        exact_file(existing),
        is_document(existing, json),
    ensures
        exact(doc(json), DEEPEST as nat),
{
    if existing is None {
        let fields = json->Object_0@;
        assert forall|key: Seq<char>| (#[trigger] field(fields, key)) matches Some(
            value,
        ) implies false by {}
        lemma_exact_fields(fields, DEEPEST as nat);
    }
}

/// Merging hooks into a file again leaves the file's bytes as they are, and
/// cannot fail: the library's entries are renewed, never added twice. It holds
/// of every document that serde_json reads back as it wrote it.
pub proof fn law_hooks_written_again_are_the_same_bytes(
    existing: Option<Seq<char>>,
    before: Json,
    after: Json,
    host: Option<Seq<char>>,
    once: Seq<char>,
    twice: Seq<char>,
    path: Seq<char>,
    message: Seq<char>,
)
    requires
        host matches Some(h) ==> !h.contains(' '),
        is_document(existing, before),
        hooked(before, after, host),
        is_written(after, once),
        reads_back(after, once),
    ensures
        hooks_written(Some(once), host, twice) ==> twice == once,
        !hooks_failed(Some(once), path, host, message),
{
    assert forall|read: Json, later: Json| #[trigger]
        is_document(Some(once), read) && #[trigger] hooked(read, later, host) implies doc(later)
        == doc(after) by {
        lemma_hooked_again(before, after, read, later, host);
    }
    if hooks_written(Some(once), host, twice) {
        let (d2, d3) = choose|d2: Json, d3: Json| #[trigger]
            is_document(Some(once), d2) && #[trigger] hooked(d2, d3, host) && is_written(d3, twice);
        assert(doc(d3) == doc(after));
    }
    assert forall|read: Json| #[trigger] is_document(Some(once), read) implies !not_hooked(
        read,
        path,
        message,
    ) by {
        lemma_still_takes_hooks(before, after, read, path, message, host);
    }
}

/// So it is wherever a file was without numbers that have a fraction or an
/// exponent: what is written to it is read back.
pub proof fn law_exact_hooks_written_again_are_the_same_bytes(
    existing: Option<Seq<char>>,
    host: Option<Seq<char>>,
    once: Seq<char>,
    twice: Seq<char>,
    path: Seq<char>,
    message: Seq<char>,
)
    requires
        host matches Some(h) ==> !h.contains(' '),
        exact_file(existing),
        hooks_written(existing, host, once),
    ensures
        hooks_written(Some(once), host, twice) ==> twice == once,
        !hooks_failed(Some(once), path, host, message),
{
    let (before, after) = choose|before: Json, after: Json| #[trigger]
        is_document(existing, before) && #[trigger] hooked(before, after, host) && is_written(
            after,
            once,
        );
    lemma_exact_document(existing, before);
    lemma_exact_hooked(before, after, host, DEEPEST as nat);
    law_hooks_written_again_are_the_same_bytes(
        existing,
        before,
        after,
        host,
        once,
        twice,
        path,
        message,
    );
}

proof fn lemma_still_takes_entries(
    shape: EntryShape,
    before: Seq<(String, Json)>,
    once: Seq<(String, Json)>,
    read: Seq<(String, Json)>,
    rows: Seq<HookRow>,
    host: Option<Seq<char>>,
    label: Seq<char>,
    message: Seq<char>,
)
    requires
        given_all(shape, before, once, rows, rows.len() as int, host),
        field_docs(once) == field_docs(read),
    ensures
        !refused(read, rows, label, message),
{
    assert forall|i: int| !#[trigger] refused_at(read, rows, label, i, message) by {
        if 0 <= i < rows.len() {
            assert(given(shape, before, once, rows[i], host));
            lemma_fields_same(once, read, rows[i].event@);
            assert(takes_entries(read, rows[i].event@));
        }
    }
}

proof fn lemma_still_takes_hooks(
    before: Json,
    once: Json,
    read: Json,
    path: Seq<char>,
    message: Seq<char>,
    host: Option<Seq<char>>,
)
    requires
        hooked(before, once, host),
        doc(once) == doc(read),
    ensures
        !not_hooked(read, path, message),
{
    let b = before->Object_0@;
    let x = once->Object_0@;
    let y = read->Object_0@;
    lemma_fields_same(x, y, "hooks"@);
    let h = field(x, "hooks"@)->0->Object_0@;
    assert(inner(y, "hooks"@) == field(y, "hooks"@)->0->Object_0@);
    lemma_still_takes_entries(
        EntryShape::Nested,
        inner(b, "hooks"@),
        h,
        inner(y, "hooks"@),
        nested_rows(),
        host,
        "hooks"@,
        message,
    );
}

/// A document that was given hooks in the flat shape says the same when it is
/// given them again.
proof fn lemma_flat_hooked_again(before: Json, once: Json, read: Json, twice: Json)
    requires
        flat_hooked(before, once),
        doc(once) == doc(read),
        flat_hooked(read, twice),
    ensures
        doc(once) == doc(twice),
{
    let b = before->Object_0@;
    let x = once->Object_0@;
    let y = read->Object_0@;
    let z = twice->Object_0@;
    assert(field_docs(x) == field_docs(y));
    lemma_fields_same(x, y, "hooks"@);
    lemma_fields_same(x, y, "version"@);
    let h = field(x, "hooks"@)->0->Object_0@;
    let k = field(z, "hooks"@)->0->Object_0@;
    assert(inner(y, "hooks"@) == field(y, "hooks"@)->0->Object_0@);
    lemma_plain_host();
    lemma_all_given_again(
        EntryShape::Flat,
        inner(b, "hooks"@),
        h,
        inner(y, "hooks"@),
        k,
        flat_rows(),
        Some("cursor"@),
    );
    assert forall|key: Seq<char>| #[trigger] same_field(x, z, key) by {
        lemma_fields_same(x, y, key);
        if key != "hooks"@ && key != "version"@ {
            assert(field(z, key) == field(y, key));
        }
    }
    lemma_same_fields(x, z);
}

proof fn lemma_plain_host()
    ensures
        !"cursor"@.contains(' '),
        "hooks"@ != "version"@,
{
    reveal_strlit("cursor");
    reveal_strlit("hooks");
    reveal_strlit("version");
    assert("hooks"@.len() != "version"@.len());
}

proof fn lemma_exact_flat_hooked(before: Json, after: Json, n: nat)
    requires
        flat_hooked(before, after),
        exact(doc(before), n),
        n > 6,
    ensures
        exact(doc(after), n),
{
    let b = before->Object_0@;
    let a = after->Object_0@;
    lemma_exact_fields(b, n);
    lemma_plain_host();
    let h = field(a, "hooks"@)->0->Object_0@;
    assert(field(b, "hooks"@) is Some ==> exact(doc(field(b, "hooks"@)->0), (n - 1) as nat));
    lemma_exact_given(
        EntryShape::Flat,
        inner(b, "hooks"@),
        h,
        flat_rows(),
        Some("cursor"@),
        (n - 1) as nat,
    );
    assert forall|key: Seq<char>| (#[trigger] field(a, key)) matches Some(value) implies exact(
        doc(field(a, key)->0),
        (n - 1) as nat,
    ) by {
        if key == "version"@ {
            assert(field(b, key) is Some ==> exact(doc(field(b, key)->0), (n - 1) as nat));
        } else if key != "hooks"@ {
            assert(field(a, key) == field(b, key));
        }
    }
    lemma_exact_fields(a, n);
}

/// Merging hooks in the flat shape into a file again leaves the file's bytes as
/// they are, and cannot fail, for every document that serde_json reads back as
/// it wrote it.
pub proof fn law_flat_hooks_written_again_are_the_same_bytes(
    existing: Option<Seq<char>>,
    before: Json,
    after: Json,
    once: Seq<char>,
    twice: Seq<char>,
    path: Seq<char>,
    message: Seq<char>,
)
    requires
        is_document(existing, before),
        flat_hooked(before, after),
        is_written(after, once),
        reads_back(after, once),
    ensures
        flat_hooks_written(Some(once), twice) ==> twice == once,
        !flat_hooks_failed(Some(once), path, message),
{
    assert forall|read: Json, later: Json| #[trigger]
        is_document(Some(once), read) && #[trigger] flat_hooked(read, later) implies doc(later)
        == doc(after) by {
        lemma_flat_hooked_again(before, after, read, later);
    }
    if flat_hooks_written(Some(once), twice) {
        let (d2, d3) = choose|d2: Json, d3: Json| #[trigger]
            is_document(Some(once), d2) && #[trigger] flat_hooked(d2, d3) && is_written(d3, twice);
        assert(doc(d3) == doc(after));
    }
    assert forall|read: Json| #[trigger] is_document(Some(once), read) implies !not_flat_hooked(
        read,
        message,
    ) by {
        let x = after->Object_0@;
        let y = read->Object_0@;
        lemma_fields_same(x, y, "hooks"@);
        let h = field(x, "hooks"@)->0->Object_0@;
        assert(inner(y, "hooks"@) == field(y, "hooks"@)->0->Object_0@);
        lemma_still_takes_entries(
            EntryShape::Flat,
            inner(before->Object_0@, "hooks"@),
            h,
            inner(y, "hooks"@),
            flat_rows(),
            Some("cursor"@),
            "hooks.hooks"@,
            message,
        );
    }
}

/// So it is wherever a file was without numbers that have a fraction or an
/// exponent.
pub proof fn law_exact_flat_hooks_written_again_are_the_same_bytes(
    existing: Option<Seq<char>>,
    once: Seq<char>,
    twice: Seq<char>,
    path: Seq<char>,
    message: Seq<char>,
)
    requires
        exact_file(existing),
        flat_hooks_written(existing, once),
    ensures
        flat_hooks_written(Some(once), twice) ==> twice == once,
        !flat_hooks_failed(Some(once), path, message),
{
    let (before, after) = choose|before: Json, after: Json| #[trigger]
        is_document(existing, before) && #[trigger] flat_hooked(before, after) && is_written(
            after,
            once,
        );
    lemma_exact_document(existing, before);
    lemma_exact_flat_hooked(before, after, DEEPEST as nat);
    law_flat_hooks_written_again_are_the_same_bytes(
        existing,
        before,
        after,
        once,
        twice,
        path,
        message,
    );
}

/// Lists of the same texts say the same, and exactly.
proof fn lemma_text_lists(a: Seq<Json>, b: Seq<Json>, wanted: Seq<Seq<char>>, n: nat)
    requires
        holds_texts(a, wanted),
        holds_texts(b, wanted),
    ensures
        docs(a) == docs(b),
        n > 0 ==> exact(Doc::List(docs(a)), n),
{
    lemma_docs(a);
    lemma_docs(b);
    assert forall|i: int| 0 <= i < a.len() implies #[trigger] docs(a)[i] == docs(b)[i] by {
        assert(a[i] is Text && b[i] is Text);
    }
    assert(docs(a) =~= docs(b));
    assert forall|i: int| 0 <= i < a.len() implies exact(
        doc(#[trigger] a[i]),
        (n - 1) as nat,
    ) by {
        assert(a[i] is Text);
    }
    lemma_exact_items(a, n);
}

/// A server that is renewed again says what it said.
proof fn lemma_server_again(
    shape: McpConfigShape,
    entry: McpEntry,
    before: Seq<(String, Json)>,
    once: Seq<(String, Json)>,
    read: Seq<(String, Json)>,
    twice: Seq<(String, Json)>,
)
    requires
        is_server(shape, entry, before, once),
        field_docs(once) == field_docs(read),
        is_server(shape, entry, read, twice),
    ensures
        field_docs(once) == field_docs(twice),
{
    let args = crate::servers::arg_texts(crate::text::opt_text(entry.repo));
    assert forall|key: Seq<char>| #[trigger] same_field(once, twice, key) by {
        lemma_fields_same(once, read, key);
        if key == "command"@ {
            if shape.command_as_array {
                lemma_text_lists(
                    field(once, key)->0->List_0@,
                    field(twice, key)->0->List_0@,
                    seq![entry.command@] + args,
                    1,
                );
            }
        } else if key == "args"@ {
            if !shape.command_as_array {
                lemma_text_lists(
                    field(once, key)->0->List_0@,
                    field(twice, key)->0->List_0@,
                    args,
                    1,
                );
            }
        } else if key == "type"@ || key == "enabled"@ || key == "cwd"@ {
        } else {
            assert(field(twice, key) == field(read, key));
        }
    }
    lemma_same_fields(once, twice);
}

/// A document that was given a server says the same when it is given it again.
proof fn lemma_served_again(
    shape: McpConfigShape,
    entry: McpEntry,
    before: Json,
    once: Json,
    read: Json,
    twice: Json,
)
    requires
        served(shape, entry, before, once),
        doc(once) == doc(read),
        served(shape, entry, read, twice),
    ensures
        doc(once) == doc(twice),
{
    let b = before->Object_0@;
    let x = once->Object_0@;
    let y = read->Object_0@;
    let z = twice->Object_0@;
    let at = shape.servers_key@;
    assert(field_docs(x) == field_docs(y));
    lemma_fields_same(x, y, at);
    let s = field(x, at)->0->Object_0@;
    let r = field(y, at)->0->Object_0@;
    let u = field(z, at)->0->Object_0@;
    assert(inner(y, at) == r);
    assert(field_docs(s) == field_docs(r));
    lemma_fields_same(s, r, entry.key@);
    let f = field(s, entry.key@)->0->Object_0@;
    let g = field(r, entry.key@)->0->Object_0@;
    let h = field(u, entry.key@)->0->Object_0@;
    assert(inner(r, entry.key@) == g);
    lemma_server_again(shape, entry, inner(inner(b, at), entry.key@), f, g, h);
    assert forall|key: Seq<char>| #[trigger] same_field(s, u, key) by {
        lemma_fields_same(s, r, key);
        if key != entry.key@ {
            assert(field(u, key) == field(r, key));
        }
    }
    lemma_same_fields(s, u);
    assert forall|key: Seq<char>| #[trigger] same_field(x, z, key) by {
        lemma_fields_same(x, y, key);
        if key != at && (key != "$schema"@ || shape.schema_url is None) {
            assert(field(z, key) == field(y, key));
        }
    }
    lemma_same_fields(x, z);
}

proof fn lemma_exact_server(
    shape: McpConfigShape,
    entry: McpEntry,
    before: Seq<(String, Json)>,
    after: Seq<(String, Json)>,
    n: nat,
)
    requires
        is_server(shape, entry, before, after),
        before.len() == 0 || exact(Doc::Object(field_docs(before)), n),
        n > 2,
    ensures
        exact(Doc::Object(field_docs(after)), n),
{
    let args = crate::servers::arg_texts(crate::text::opt_text(entry.repo));
    lemma_exact_fields(before, n);
    assert forall|key: Seq<char>| (#[trigger] field(after, key)) matches Some(value) implies exact(
        doc(field(after, key)->0),
        (n - 1) as nat,
    ) by {
        assert(field(before, key) is Some ==> exact(doc(field(before, key)->0), (n - 1) as nat));
        if key == "command"@ {
            if shape.command_as_array {
                let list = field(after, key)->0->List_0@;
                lemma_text_lists(list, list, seq![entry.command@] + args, (n - 1) as nat);
            }
        } else if key == "args"@ {
            if !shape.command_as_array {
                let list = field(after, key)->0->List_0@;
                lemma_text_lists(list, list, args, (n - 1) as nat);
            }
        } else if key == "type"@ || key == "enabled"@ || key == "cwd"@ {
        } else {
            assert(field(after, key) == field(before, key));
        }
    }
    lemma_exact_fields(after, n);
}

proof fn lemma_exact_served(
    shape: McpConfigShape,
    entry: McpEntry,
    before: Json,
    after: Json,
    n: nat,
)
    requires
        served(shape, entry, before, after),
        exact(doc(before), n),
        n > 4,
    ensures
        exact(doc(after), n),
{
    let b = before->Object_0@;
    let a = after->Object_0@;
    let at = shape.servers_key@;
    lemma_exact_fields(b, n);
    let s = field(a, at)->0->Object_0@;
    let o = inner(b, at);
    let f = field(s, entry.key@)->0->Object_0@;
    assert(field(b, at) is Some ==> exact(doc(field(b, at)->0), (n - 1) as nat));
    lemma_exact_fields(o, (n - 1) as nat);
    assert(field(o, entry.key@) is Some ==> exact(
        doc(field(o, entry.key@)->0),
        (n - 2) as nat,
    ));
    lemma_exact_server(shape, entry, inner(o, entry.key@), f, (n - 2) as nat);
    assert forall|key: Seq<char>| (#[trigger] field(s, key)) matches Some(value) implies exact(
        doc(field(s, key)->0),
        (n - 2) as nat,
    ) by {
        if key != entry.key@ {
            assert(field(s, key) == field(o, key));
        }
    }
    lemma_exact_fields(s, (n - 1) as nat);
    assert forall|key: Seq<char>| (#[trigger] field(a, key)) matches Some(value) implies exact(
        doc(field(a, key)->0),
        (n - 1) as nat,
    ) by {
        assert(field(b, key) is Some ==> exact(doc(field(b, key)->0), (n - 1) as nat));
        if key != at && (key != "$schema"@ || shape.schema_url is None) {
            assert(field(a, key) == field(b, key));
        }
    }
    lemma_exact_fields(a, n);
}

/// Registering a server in a file again leaves the file's bytes as they are, and
/// cannot fail, for every document that serde_json reads back as it wrote it.
pub proof fn law_servers_written_again_are_the_same_bytes(
    existing: Option<Seq<char>>,
    before: Json,
    after: Json,
    shape: McpConfigShape,
    entry: McpEntry,
    once: Seq<char>,
    twice: Seq<char>,
    path: Seq<char>,
    message: Seq<char>,
)
    requires
        is_document(existing, before),
        served(shape, entry, before, after),
        is_written(after, once),
        reads_back(after, once),
    ensures
        server_written(Some(once), shape, entry, twice) ==> twice == once,
        !server_failed(Some(once), path, shape, entry, message),
{
    assert forall|read: Json, later: Json| #[trigger]
        is_document(Some(once), read) && #[trigger] served(shape, entry, read, later) implies doc(
        later,
    ) == doc(after) by {
        lemma_served_again(shape, entry, before, after, read, later);
    }
    if server_written(Some(once), shape, entry, twice) {
        let (d2, d3) = choose|d2: Json, d3: Json| #[trigger]
            is_document(Some(once), d2) && #[trigger] served(shape, entry, d2, d3) && is_written(
                d3,
                twice,
            );
        assert(doc(d3) == doc(after));
    }
    assert forall|read: Json| #[trigger] is_document(Some(once), read) implies !not_served(
        shape,
        read,
        path,
        message,
    ) by {
        lemma_fields_same(after->Object_0@, read->Object_0@, shape.servers_key@);
    }
}

/// So it is wherever a file was without numbers that have a fraction or an
/// exponent.
pub proof fn law_exact_servers_written_again_are_the_same_bytes(
    existing: Option<Seq<char>>,
    shape: McpConfigShape,
    entry: McpEntry,
    once: Seq<char>,
    twice: Seq<char>,
    path: Seq<char>,
    message: Seq<char>,
)
    requires
        exact_file(existing),
        server_written(existing, shape, entry, once),
    ensures
        server_written(Some(once), shape, entry, twice) ==> twice == once,
        !server_failed(Some(once), path, shape, entry, message),
{
    let (before, after) = choose|before: Json, after: Json| #[trigger]
        is_document(existing, before) && #[trigger] served(shape, entry, before, after)
            && is_written(after, once);
    lemma_exact_document(existing, before);
    lemma_exact_served(shape, entry, before, after, DEEPEST as nat);
    law_servers_written_again_are_the_same_bytes(
        existing,
        before,
        after,
        shape,
        entry,
        once,
        twice,
        path,
        message,
    );
}

} // verus!
