//! What the item bytes of an auction say, tag by tag.

use crate::auction::RawAuction;
use crate::nbt::{decoded, Tree};
use crate::parser::{
    attributes_in, attributes_shaped, base64_decoded, display_shaped, finding, gunzipped,
    listed_as, name_in, plain, reports, root_shaped, stack_finding, stack_shaped, tag_shaped,
    wire_reports, DecodedItem, Finding, ParseError, ParsedItem,
};
use crate::pipeline::{parsed_from, refused_with};
use crate::tags::{has_number, has_text};
use vstd::prelude::*;

verus! {

/// Item NBT with one stack, whose count is `n` and whose tag is `tag`.
pub open spec fn one_stack(
    root: Map<Seq<char>, Tree>,
    stack: Map<Seq<char>, Tree>,
    n: int,
    tag: Map<Seq<char>, Tree>,
) -> bool {
    &&& root.contains_key("i"@)
    &&& root["i"@] == Tree::List(seq![Tree::Compound(stack)])
    &&& has_number(stack, "Count"@, n)
    &&& -128 <= n <= 127
    &&& stack.contains_key("tag"@)
    &&& stack["tag"@] == Tree::Compound(tag)
}

/// The tag displays the name `name`.
pub open spec fn displays(tag: Map<Seq<char>, Tree>, name: Seq<char>) -> bool {
    &&& tag.contains_key("display"@)
    &&& tag["display"@] is Compound
    &&& has_text(tag["display"@]->Compound_0, "Name"@, name)
}

/// The tag displays no name.
pub open spec fn displays_nothing(tag: Map<Seq<char>, Tree>) -> bool {
    tag.contains_key("display"@) ==> tag["display"@] is Compound
        && !tag["display"@]->Compound_0.contains_key("Name"@)
}

/// What is found in the NBT of an item: the id from its attributes, the
/// count from its stack, the displayed name without formatting codes, or the
/// id where no name is displayed, and the attributes without the id.
pub proof fn law_what_item_nbt_holds(
    root: Map<Seq<char>, Tree>,
    stack: Map<Seq<char>, Tree>,
    n: int,
    tag: Map<Seq<char>, Tree>,
    attributes: Map<Seq<char>, Tree>,
    id: Seq<char>,
    name: Seq<char>,
)
    requires
        one_stack(root, stack, n, tag),
        displays(tag, name) || displays_nothing(tag),
        tag.contains_key("ExtraAttributes"@),
        tag["ExtraAttributes"@] == Tree::Compound(attributes),
        has_text(attributes, "id"@, id),
    ensures
        ({
            let found = finding(Tree::Compound(root));
            &&& found is Item
            &&& found->id == id
            &&& found->count == n
            &&& displays(tag, name) ==> found->name == plain(name)
            &&& displays_nothing(tag) ==> found->name == id
            &&& forall|k: Seq<char>| #[trigger]
                found->attributes.contains_key(k) <==> k != "id"@ && attributes.contains_key(k)
            &&& forall|k: Seq<char>| #[trigger]
                found->attributes.contains_key(k) ==> found->attributes[k] == attributes[k]
        }),
{
    let stacks = seq![Tree::Compound(stack)];
    assert(attributes_shaped(tag["ExtraAttributes"@]));
    assert(tag.contains_key("display"@) ==> display_shaped(tag["display"@]));
    assert(tag_shaped(stack["tag"@]));
    assert(stack["Count"@].integer() == Some(n as i64));
    assert(stack_shaped(stacks[0]));
    assert(root_shaped(Tree::Compound(root)));
}

/// What is not an item: NBT without a list of stacks is misshapen, a list
/// without a stack has none, a stack whose count is no byte is misshapen, and
/// so is an id that is no string; without attributes, or without an id in
/// them, there is no id.
pub proof fn law_what_is_no_item(
    root: Map<Seq<char>, Tree>,
    stack: Map<Seq<char>, Tree>,
    n: int,
    tag: Map<Seq<char>, Tree>,
    attributes: Map<Seq<char>, Tree>,
    other: Tree,
)
    ensures
        !(other is Compound) ==> finding(other) is Misshapen,
        !root.contains_key("i"@) ==> finding(Tree::Compound(root)) is Misshapen,
        root.contains_key("i"@) && !(root["i"@] is List) ==> finding(
            Tree::Compound(root),
        ) is Misshapen,
        root.contains_key("i"@) && root["i"@] == Tree::List(Seq::empty()) ==> finding(
            Tree::Compound(root),
        ) is NoStack,
        root.contains_key("i"@) && root["i"@] == Tree::List(seq![Tree::Compound(stack)]) && (forall|
            m: int,
        | -128 <= m <= 127 ==> !#[trigger] has_number(stack, "Count"@, m)) ==> finding(
            Tree::Compound(root),
        ) is Misshapen,
        root.contains_key("i"@) && root["i"@] == Tree::List(seq![Tree::Compound(stack)])
            && has_number(stack, "Count"@, n) && -128 <= n <= 127 && !stack.contains_key("tag"@)
            ==> finding(Tree::Compound(root)) is NoId,
        one_stack(root, stack, n, tag) && displays_nothing(tag) && !tag.contains_key(
            "ExtraAttributes"@,
        ) ==> finding(Tree::Compound(root)) is NoId,
        one_stack(root, stack, n, tag) && displays_nothing(tag) && tag.contains_key(
            "ExtraAttributes"@,
        ) && tag["ExtraAttributes"@] == Tree::Compound(attributes) ==> {
            &&& !attributes.contains_key("id"@) ==> finding(Tree::Compound(root)) is NoId
            &&& attributes.contains_key("id"@) && !(attributes["id"@] is String) ==> finding(
                Tree::Compound(root),
            ) is Misshapen
        },
{
    let stacks = seq![Tree::Compound(stack)];
    assert(stacks[0] == Tree::Compound(stack));
    let t = Tree::Compound(root);
    if root.contains_key("i"@) && root["i"@] == Tree::List(Seq::empty()) {
        assert(root_shaped(t));
    }
    if root.contains_key("i"@) && root["i"@] == Tree::List(stacks) {
        assert(root_shaped(t) <==> stack_shaped(stacks[0]));
        if stack_shaped(stacks[0]) {
            let m = stack["Count"@].integer()->0 as int;
            assert(has_number(stack, "Count"@, m));
        }
        if has_number(stack, "Count"@, n) && -128 <= n <= 127 {
            assert(stack["Count"@].integer() == Some(n as i64));
            if stack.contains_key("tag"@) && stack["tag"@] == Tree::Compound(tag)
                && displays_nothing(tag) {
                assert(tag.contains_key("display"@) ==> display_shaped(tag["display"@]));
                if tag.contains_key("ExtraAttributes"@) && tag["ExtraAttributes"@]
                    == Tree::Compound(attributes) {
                    assert(attributes_shaped(tag["ExtraAttributes"@]) <==> (
                    attributes.contains_key("id"@) ==> attributes["id"@] is String));
                    assert(tag_shaped(stack["tag"@]) <==> attributes_shaped(
                        tag["ExtraAttributes"@],
                    ));
                }
            }
        }
    }
}

/// A formatting code, the section sign and whatever character follows it,
/// is taken out of a name, and what stands around it stays.
pub proof fn law_a_code_is_taken_out(before: Seq<char>, code: char, after: Seq<char>)
    requires
        !before.contains('\u{00a7}'),
    ensures
        plain(before.push('\u{00a7}').push(code) + after) == before + plain(after),
        plain(before.push('\u{00a7}')) == before,
        plain(before) == before,
    decreases before.len(),
{
    let whole = before.push('\u{00a7}').push(code) + after;
    let short = before.push('\u{00a7}');
    if before.len() == 0 {
        assert(whole.skip(2) =~= after);
        assert(before + plain(after) =~= plain(after));
        assert(plain(short) =~= before);
        assert(plain(before) =~= before);
    } else {
        let rest = before.skip(1);
        assert(before.contains(before[0]));
        assert forall|i: int| 0 <= i < rest.len() implies rest[i] != '\u{00a7}' by {
            assert(before.contains(before[i + 1]));
        }
        law_a_code_is_taken_out(rest, code, after);
        assert(whole.skip(1) =~= rest.push('\u{00a7}').push(code) + after);
        assert(short.skip(1) =~= rest.push('\u{00a7}'));
        assert(seq![before[0]] + rest =~= before);
        assert(seq![before[0]] + (rest + plain(after)) =~= before + plain(after));
    }
}

/// How a finding is reported: an item with what was found, and each way of
/// not being one with its own error.
pub proof fn law_what_is_reported(result: Result<DecodedItem, ParseError>, found: Finding)
    requires
        reports(result, found),
    ensures
        found is Misshapen ==> result matches Err(ParseError::Nbt(_)),
        found is NoStack ==> result matches Err(ParseError::EmptyItemList),
        found is NoId ==> result matches Err(ParseError::MissingSkyblockId),
        found is Item ==> {
            &&& result is Ok
            &&& result->Ok_0.skyblock_item_id@ == found->id
            &&& result->Ok_0.display_name@ == found->name
            &&& result->Ok_0.count == found->count
            &&& result->Ok_0.extra_attributes is Some
            &&& result->Ok_0.extra_attributes->0.tree() == Tree::Compound(found->attributes)
        },
{
}

/// Item bytes are base64 of gzip of NBT; the first of these that they are
/// not decides the error.
pub proof fn law_item_bytes_are_unwrapped_in_turn(
    result: Result<DecodedItem, ParseError>,
    text: Seq<char>,
)
    requires
        wire_reports(result, text),
    ensures
        base64_decoded(text) is None ==> result matches Err(ParseError::Base64(_)),
        base64_decoded(text) is Some ==> {
            let zipped = base64_decoded(text)->0;
            let bytes = gunzipped(zipped)->0;
            &&& gunzipped(zipped) is None ==> (result matches Err(ParseError::Gzip(_)))
            &&& gunzipped(zipped) is Some && decoded(bytes) is None ==> (
            result matches Err(ParseError::Nbt(_)))
            &&& gunzipped(zipped) is Some && decoded(bytes) is Some ==> reports(
                result,
                finding(decoded(bytes)->0),
            )
        },
{
}

/// An auction with its item: what the item bytes say of the item, and what
/// the listing says of the auction. One that does not say that it can be
/// bought at once cannot.
pub proof fn law_what_a_listing_says(item: ParsedItem, raw: RawAuction, inner: DecodedItem)
    requires
        listed_as(item, raw, inner),
    ensures
        item.uuid@ == raw.uuid@,
        item.auctioneer@ == raw.auctioneer@,
        item.starting_bid == raw.starting_bid,
        item.end == raw.end,
        raw.bin matches Some(bin) ==> item.bin == bin,
        raw.bin is None ==> !item.bin,
        item.skyblock_item_id@ == inner.skyblock_item_id@,
        item.display_name@ == inner.display_name@,
        item.count == inner.count,
        item.extra_attributes == inner.extra_attributes,
{
}

/// What is found in item NBT with these stacks.
pub open spec fn found_in_stacks(root: Map<Seq<char>, Tree>, stacks: Seq<Tree>) -> Finding {
    finding(Tree::Compound(root.insert("i"@, Tree::List(stacks))))
}

/// What is found in item NBT with one stack, whose tag is `tag`.
pub open spec fn found_under(
    root: Map<Seq<char>, Tree>,
    stack: Map<Seq<char>, Tree>,
    tag: Tree,
) -> Finding {
    found_in_stacks(root, seq![Tree::Compound(stack.insert("tag"@, tag))])
}

/// The first stack is the item. The others say nothing of it, but each of
/// them has to have the shape of one.
pub proof fn law_the_first_stack_is_the_item(root: Map<Seq<char>, Tree>, stacks: Seq<Tree>)
    requires
        stacks.len() > 0,
    ensures
        (forall|k: int|
            0 <= k < stacks.len() ==> !(found_in_stacks(
                root,
                seq![#[trigger] stacks[k]],
            ) is Misshapen)) ==> found_in_stacks(root, stacks) == found_in_stacks(
            root,
            seq![stacks[0]],
        ),
        (exists|k: int|
            0 <= k < stacks.len() && found_in_stacks(
                root,
                seq![#[trigger] stacks[k]],
            ) is Misshapen) ==> found_in_stacks(root, stacks) is Misshapen,
{
    let all = root.insert("i"@, Tree::List(stacks));
    assert forall|k: int| 0 <= k < stacks.len() implies (found_in_stacks(
        root,
        seq![#[trigger] stacks[k]],
    ) is Misshapen <==> !stack_shaped(stacks[k])) by {
        let alone = seq![stacks[k]];
        assert(alone[0] == stacks[k]);
        assert(root_shaped(Tree::Compound(root.insert("i"@, Tree::List(alone)))) <==> stack_shaped(
            alone[0],
        ));
    }
    assert(root_shaped(Tree::Compound(all)) <==> forall|k: int|
        0 <= k < stacks.len() ==> stack_shaped(#[trigger] stacks[k]));
}

/// A list stands for a compound: one of attributes and display for a tag
/// with these, and one of a name for a display of that name.
pub proof fn law_lists_stand_for_compounds(
    root: Map<Seq<char>, Tree>,
    stack: Map<Seq<char>, Tree>,
    attributes: Tree,
    display: Tree,
    name: Tree,
)
    ensures
        found_under(root, stack, Tree::List(seq![attributes, display])) == found_under(
            root,
            stack,
            Tree::Compound(map!["ExtraAttributes"@ => attributes, "display"@ => display]),
        ),
        found_under(
            root,
            stack,
            Tree::List(seq![attributes, Tree::List(seq![name])]),
        ) == found_under(
            root,
            stack,
            Tree::List(seq![attributes, Tree::Compound(map!["Name"@ => name])]),
        ),
{
    reveal_strlit("ExtraAttributes");
    reveal_strlit("display");
    assert("ExtraAttributes"@.len() != "display"@.len());
    let parts = seq![attributes, display];
    assert(parts[0] == attributes && parts[1] == display);
    let fields = map!["ExtraAttributes"@ => attributes, "display"@ => display];
    assert(fields["ExtraAttributes"@] == attributes && fields["display"@] == display);
    lemma_same_tag(root, stack, Tree::List(parts), Tree::Compound(fields));
    let names = seq![name];
    assert(names[0] == name);
    let listed = Tree::List(names);
    let named = Tree::Compound(map!["Name"@ => name]);
    assert(display_shaped(listed) <==> display_shaped(named));
    let one = seq![attributes, listed];
    let other = seq![attributes, named];
    assert(one[0] == attributes && one[1] == listed);
    assert(other[0] == attributes && other[1] == named);
    assert(name_in(Tree::List(one)) == name_in(Tree::List(other)));
    lemma_same_tag(root, stack, Tree::List(one), Tree::List(other));
}

proof fn lemma_same_tag(
    root: Map<Seq<char>, Tree>,
    stack: Map<Seq<char>, Tree>,
    a: Tree,
    b: Tree,
)
    requires
        tag_shaped(a) <==> tag_shaped(b),
        attributes_in(a) == attributes_in(b),
        name_in(a) == name_in(b),
    ensures
        found_under(root, stack, a) == found_under(root, stack, b),
{
    lemma_under(root, stack, a);
    lemma_under(root, stack, b);
    reveal_strlit("Count");
    reveal_strlit("tag");
    assert("Count"@.len() != "tag"@.len());
}

proof fn lemma_under(root: Map<Seq<char>, Tree>, stack: Map<Seq<char>, Tree>, tag: Tree)
    ensures
        found_under(root, stack, tag) == if stack_shaped(
            Tree::Compound(stack.insert("tag"@, tag)),
        ) {
            stack_finding(stack.insert("tag"@, tag))
        } else {
            Finding::Misshapen
        },
{
    let stacks = seq![Tree::Compound(stack.insert("tag"@, tag))];
    assert(stacks[0] == Tree::Compound(stack.insert("tag"@, tag)));
    let whole = Tree::Compound(root.insert("i"@, Tree::List(stacks)));
    assert(root_shaped(whole) <==> stack_shaped(stacks[0]));
}

/// What a tag may be besides a compound. An array is one without fields, and
/// so are attributes and a display that are arrays; a list has just as many
/// members as there are parts; and nothing else has the shape of a part.
/// Attributes are no list.
pub proof fn law_what_the_parts_of_an_item_may_be(
    root: Map<Seq<char>, Tree>,
    stack: Map<Seq<char>, Tree>,
    n: int,
    attributes: Map<Seq<char>, Tree>,
    id: Seq<char>,
    other: Tree,
)
    requires
        has_number(stack, "Count"@, n),
        -128 <= n <= 127,
        has_text(attributes, "id"@, id),
        !(other is Compound),
    ensures
        ({
            let array = other is ByteArray || other is IntArray || other is LongArray;
            let known = Tree::Compound(attributes);
            let as_tag = found_under(root, stack, other);
            let as_attributes = found_under(
                root,
                stack,
                Tree::Compound(map!["ExtraAttributes"@ => other]),
            );
            let as_display = found_under(root, stack, Tree::List(seq![known, other]));
            let as_name = found_under(
                root,
                stack,
                Tree::List(seq![known, Tree::List(seq![other])]),
            );
            &&& array ==> as_tag is NoId && as_attributes is NoId && as_display is Item
                && as_display->id == id && as_display->name == id
            &&& !array ==> as_attributes is Misshapen
            &&& !array && !(other is List) ==> as_tag is Misshapen && as_display is Misshapen
            &&& other is List && other->List_0.len() != 2 ==> as_tag is Misshapen
            &&& other is List && other->List_0.len() != 1 ==> as_display is Misshapen
            &&& !(other is String) ==> as_name is Misshapen
            &&& other is String ==> as_name is Item && as_name->name == plain(other->String_0)
        }),
{
    reveal_strlit("Count");
    reveal_strlit("tag");
    reveal_strlit("ExtraAttributes");
    reveal_strlit("display");
    assert("Count"@.len() != "tag"@.len());
    assert("ExtraAttributes"@.len() != "display"@.len());
    let known = Tree::Compound(attributes);
    assert(stack["Count"@].integer() == Some(n as i64));
    lemma_under(root, stack, other);
    let only = map!["ExtraAttributes"@ => other];
    assert(only["ExtraAttributes"@] == other && !only.contains_key("display"@));
    lemma_under(root, stack, Tree::Compound(only));
    let pair = seq![known, other];
    assert(pair[0] == known && pair[1] == other);
    assert(attributes_shaped(known));
    assert(tag_shaped(Tree::List(pair)) <==> display_shaped(other));
    lemma_under(root, stack, Tree::List(pair));
    let names = seq![other];
    assert(names[0] == other);
    let shown = seq![known, Tree::List(names)];
    assert(shown[0] == known && shown[1] == Tree::List(names));
    assert(display_shaped(Tree::List(names)) <==> other is String);
    assert(tag_shaped(Tree::List(shown)) <==> display_shaped(Tree::List(names)));
    lemma_under(root, stack, Tree::List(shown));
}

/// What parsing an auction gives: the item that is found in its bytes, with
/// what the listing says of the auction.
pub proof fn law_what_parsing_gives(item: ParsedItem, raw: RawAuction)
    requires
        parsed_from(item, raw),
    ensures
        item.uuid@ == raw.uuid@,
        item.auctioneer@ == raw.auctioneer@,
        item.starting_bid == raw.starting_bid,
        item.end == raw.end,
        item.bin <==> raw.bin == Some(true),
        ({
            let text = raw.item_bytes@;
            let found = finding(decoded(gunzipped(base64_decoded(text)->0)->0)->0);
            &&& base64_decoded(text) is Some
            &&& gunzipped(base64_decoded(text)->0) is Some
            &&& decoded(gunzipped(base64_decoded(text)->0)->0) is Some
            &&& found is Item
            &&& item.skyblock_item_id@ == found->id
            &&& item.display_name@ == found->name
            &&& item.count == found->count
            &&& item.extra_attributes is Some
            &&& item.extra_attributes->0.tree() == Tree::Compound(found->attributes)
        }),
{
    let inner = choose|inner: DecodedItem|
        wire_reports(Ok::<DecodedItem, ParseError>(inner), raw.item_bytes@) && #[trigger]
            listed_as(item, raw, inner);
    law_what_a_listing_says(item, raw, inner);
    law_item_bytes_are_unwrapped_in_turn(Ok(inner), raw.item_bytes@);
}

/// Why an auction cannot be parsed: the first wrapping of its bytes that is
/// not what it should be, or else what is missing of an item in them.
pub proof fn law_why_parsing_fails(error: ParseError, raw: RawAuction)
    requires
        refused_with(error, raw),
    ensures
        ({
            let text = raw.item_bytes@;
            let zipped = base64_decoded(text);
            let bytes = gunzipped(zipped->0);
            let tree = decoded(bytes->0);
            let readable = zipped is Some && bytes is Some;
            &&& error is Base64 <==> zipped is None
            &&& error is Gzip <==> zipped is Some && bytes is None
            &&& error is Nbt <==> readable && (tree is None || finding(tree->0) is Misshapen)
            &&& error is EmptyItemList <==> readable && tree is Some && finding(tree->0) is NoStack
            &&& error is MissingSkyblockId <==> readable && tree is Some && finding(
                tree->0,
            ) is NoId
        }),
{
    law_item_bytes_are_unwrapped_in_turn(Err(error), raw.item_bytes@);
}

} // verus!
