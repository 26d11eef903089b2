//! Minimal item parser.
//!
//! Decodes an auction's item bytes (base64, then gzip, then NBT) into the
//! fields that pricing and storage need: the SkyBlock item id, a readable
//! name and the stack count. Whatever else moves a price stays in
//! `extra_attributes` as raw NBT.

use crate::auction::RawAuction;
use crate::nbt::{as_compound, as_int, decoded, read, Compound, Tree, Value};
use crate::text::to_chars;
use vstd::prelude::*;

verus! {

/// An auction with its item decoded.
#[derive(Debug, Clone, PartialEq)]
pub struct ParsedItem {
    pub uuid: String,
    pub auctioneer: String,
    pub skyblock_item_id: String,
    pub display_name: String,
    pub count: i8,
    pub starting_bid: u64,
    pub bin: bool,
    pub end: i64,
    /// The item's `ExtraAttributes` compound but for `id`.
    pub extra_attributes: Option<Value>,
}

/// An item's decoded NBT, whichever auction it came from.
#[derive(Debug, Clone, PartialEq)]
pub struct DecodedItem {
    pub skyblock_item_id: String,
    pub display_name: String,
    pub count: i8,
    /// The item's `ExtraAttributes` compound but for `id`.
    pub extra_attributes: Option<Value>,
}

/// Why base64 text was refused.
#[verifier::external_type_specification]
#[verifier::external_body]
pub struct ExBase64Error(base64::DecodeError);

/// Why bytes did not decompress.
#[verifier::external_type_specification]
#[verifier::external_body]
pub struct ExIoError(std::io::Error);

/// Why an item could not be decoded.
#[derive(Debug)]
pub enum ParseError {
    /// The item bytes are not valid base64.
    Base64(base64::DecodeError),
    /// The item bytes did not decompress as gzip.
    Gzip(std::io::Error),
    /// The item bytes did not decode as the expected NBT item structure.
    Nbt(fastnbt::error::Error),
    /// The item NBT has no item stack in its root `i` list.
    EmptyItemList,
    /// The item NBT lacks `ExtraAttributes.id`, the SkyBlock item identifier.
    MissingSkyblockId,
}

// ---------------------------------------------------------------------
// The shape of item NBT
// ---------------------------------------------------------------------

/// An NBT array, which counts as a compound that has none of the fields.
pub open spec fn bare(tree: Tree) -> bool {
    tree is ByteArray || tree is IntArray || tree is LongArray
}

/// A part of a structure: the field `name` of a compound, or what stands at
/// its place in a list of the parts.
pub open spec fn member(tree: Tree, name: Seq<char>, place: int) -> Option<Tree> {
    match tree {
        Tree::Compound(fields) => if fields.contains_key(name) {
            Some(fields[name])
        } else {
            None
        },
        Tree::List(parts) => if 0 <= place < parts.len() {
            Some(parts[place])
        } else {
            None
        },
        _ => None,
    }
}

/// A structure of `size` parts: a compound, or a list of just the parts.
pub open spec fn structured(tree: Tree, size: nat) -> bool {
    bare(tree) || tree is Compound || (tree matches Tree::List(parts) && parts.len() == size)
}

/// A structure whose part `Name`, if any, is a string.
pub open spec fn display_shaped(tree: Tree) -> bool {
    &&& structured(tree, 1)
    &&& member(tree, "Name"@, 0) matches Some(name) ==> name is String
}

/// A compound whose `id`, if any, is a string.
pub open spec fn attributes_shaped(tree: Tree) -> bool {
    &&& bare(tree) || tree is Compound
    &&& member(tree, "id"@, 0) matches Some(id) ==> id is String
}

/// A structure whose parts `ExtraAttributes` and `display`, if any, are
/// shaped.
pub open spec fn tag_shaped(tree: Tree) -> bool {
    &&& structured(tree, 2)
    &&& member(tree, "ExtraAttributes"@, 0) matches Some(attributes) ==> attributes_shaped(
        attributes,
    )
    &&& member(tree, "display"@, 1) matches Some(display) ==> display_shaped(display)
}

/// A compound with an integer `Count` of one byte and, if any, a shaped `tag`.
pub open spec fn stack_shaped(tree: Tree) -> bool {
    &&& tree is Compound
    &&& tree->Compound_0.contains_key("Count"@)
    &&& tree->Compound_0["Count"@].integer() matches Some(n) && -128 <= n <= 127
    &&& member(tree, "tag"@, 1) matches Some(tag) ==> tag_shaped(tag)
}

/// A compound with a list `i` of shaped item stacks.
pub open spec fn root_shaped(tree: Tree) -> bool {
    &&& tree is Compound
    &&& tree->Compound_0.contains_key("i"@)
    &&& tree->Compound_0["i"@] matches Tree::List(stacks) && forall|k: int|
        0 <= k < stacks.len() ==> stack_shaped(#[trigger] stacks[k])
}

/// The compound under `name`, if there is one.
pub open spec fn part(fields: Map<Seq<char>, Tree>, name: Seq<char>) -> Option<
    Map<Seq<char>, Tree>,
> {
    if fields.contains_key(name) && fields[name] is Compound {
        Some(fields[name]->Compound_0)
    } else {
        None
    }
}

/// The string under `name`, if there is one.
pub open spec fn text_part(fields: Map<Seq<char>, Tree>, name: Seq<char>) -> Option<Seq<char>> {
    if fields.contains_key(name) && fields[name] is String {
        Some(fields[name]->String_0)
    } else {
        None
    }
}

/// `s` without the formatting codes: a section sign and the character
/// behind it.
pub open spec fn plain(s: Seq<char>) -> Seq<char>
    decreases s.len(),
{
    if s.len() == 0 {
        Seq::empty()
    } else if s[0] == '\u{00a7}' {
        if s.len() == 1 {
            Seq::empty()
        } else {
            plain(s.skip(2))
        }
    } else {
        seq![s[0]] + plain(s.skip(1))
    }
}

/// What is found in item NBT.
pub enum Finding {
    /// The NBT has not the shape of an item.
    Misshapen,
    /// There is no item stack.
    NoStack,
    /// The first item stack has no SkyBlock item id.
    NoId,
    Item { id: Seq<char>, name: Seq<char>, count: i8, attributes: Map<Seq<char>, Tree> },
}

/// The attributes that a tag holds, if it holds any as a compound.
pub open spec fn attributes_in(tag: Tree) -> Option<Map<Seq<char>, Tree>> {
    match member(tag, "ExtraAttributes"@, 0) {
        Some(Tree::Compound(attributes)) => Some(attributes),
        _ => None,
    }
}

/// The name that a tag displays, if any.
pub open spec fn name_in(tag: Tree) -> Option<Seq<char>> {
    match member(tag, "display"@, 1) {
        Some(display) => match member(display, "Name"@, 0) {
            Some(Tree::String(name)) => Some(name),
            _ => None,
        },
        None => None,
    }
}

/// What is found in the first item stack.
pub open spec fn stack_finding(stack: Map<Seq<char>, Tree>) -> Finding {
    if !stack.contains_key("tag"@) {
        Finding::NoId
    } else {
        let tag = stack["tag"@];
        match attributes_in(tag) {
            None => Finding::NoId,
            Some(attributes) => match text_part(attributes, "id"@) {
                None => Finding::NoId,
                Some(id) => Finding::Item {
                    id,
                    name: match name_in(tag) {
                        Some(name) => plain(name),
                        None => id,
                    },
                    count: stack["Count"@].integer()->0 as i8,
                    attributes: attributes.remove("id"@),
                },
            },
        }
    }
}

/// What is found in decoded item NBT.
pub open spec fn finding(tree: Tree) -> Finding {
    if !root_shaped(tree) {
        Finding::Misshapen
    } else {
        let stacks = tree->Compound_0["i"@]->List_0;
        if stacks.len() == 0 {
            Finding::NoStack
        } else {
            stack_finding(stacks[0]->Compound_0)
        }
    }
}

/// What is found in encoded item NBT.
pub open spec fn bytes_finding(bytes: Seq<u8>) -> Finding {
    match decoded(bytes) {
        Some(tree) => finding(tree),
        None => Finding::Misshapen,
    }
}

/// `result` reports `finding`.
pub open spec fn reports(result: Result<DecodedItem, ParseError>, finding: Finding) -> bool {
    match result {
        Ok(item) => finding == (Finding::Item {
            id: item.skyblock_item_id@,
            name: item.display_name@,
            count: item.count,
            attributes: item.extra_attributes->0.tree()->Compound_0,
        }) && item.extra_attributes is Some && item.extra_attributes->0.tree() is Compound,
        Err(ParseError::Nbt(_)) => finding is Misshapen,
        Err(ParseError::EmptyItemList) => finding is NoStack,
        Err(ParseError::MissingSkyblockId) => finding is NoId,
        Err(_) => false,
    }
}

/// Makes a `fastnbt::error::Error` that says what was expected, by that
/// type's `serde::de::Error::custom`. Nothing is claimed of it.
#[verifier::external_body]
fn shape_error() -> fastnbt::error::Error {
    serde::de::Error::custom("not the NBT structure of an item")
}

/// The part of a structure that is the field `name` of a compound or stands
/// at its place in a list of `size` parts; `Err` where the value is neither,
/// nor an array.
fn part_of<'a>(value: &'a Value, name: &str, place: usize, size: usize) -> (found: Result<
    Option<&'a Value>,
    (),
>)
    ensures
        found is Ok <==> structured(value.tree(), size as nat),
        found matches Ok(found) ==> match found {
            Some(inner) => member(value.tree(), name@, place as int) == Some(inner.tree()),
            None => member(value.tree(), name@, place as int) is None,
        },
{
    match value {
        Value::Compound(fields) => Ok(fields.get(name)),
        Value::List(parts) => {
            if parts.len() != size {
                return Err(());
            }
            if place < parts.len() {
                Ok(Some(&parts[place]))
            } else {
                Ok(None)
            }
        },
        Value::ByteArray(_) | Value::IntArray(_) | Value::LongArray(_) => Ok(None),
        _ => Err(()),
    }
}

/// The name in a `display` structure; `Err` where it has not the shape of
/// one.
fn read_display(value: &Value) -> (name: Result<Option<&String>, ()>)
    ensures
        name is Ok <==> display_shaped(value.tree()),
        name matches Ok(name) ==> match name {
            Some(s) => member(value.tree(), "Name"@, 0) == Some(Tree::String(s@)),
            None => member(value.tree(), "Name"@, 0) is None,
        },
{
    match part_of(value, "Name", 0, 1) {
        Ok(None) => Ok(None),
        Ok(Some(Value::String(s))) => Ok(Some(s)),
        _ => Err(()),
    }
}

/// The item attributes and the id in them; `Err` where they have not the
/// shape.
fn read_attributes(value: &Value) -> (parts: Result<Option<(&Compound, Option<&String>)>, ()>)
    ensures
        parts is Ok <==> attributes_shaped(value.tree()),
        parts matches Ok(parts) ==> match parts {
            Some((fields, id)) => value.tree() == Tree::Compound(fields.map()) && match id {
                Some(s) => text_part(fields.map(), "id"@) == Some(s@),
                None => text_part(fields.map(), "id"@) is None,
            },
            None => !(value.tree() is Compound),
        },
{
    match value {
        Value::Compound(fields) => match fields.get("id") {
            None => Ok(Some((fields, None))),
            Some(Value::String(s)) => Ok(Some((fields, Some(s)))),
            Some(_) => Err(()),
        },
        Value::ByteArray(_) | Value::IntArray(_) | Value::LongArray(_) => Ok(None),
        _ => Err(()),
    }
}

/// The parts of an item's tag that are read.
struct Tag<'a> {
    /// The attributes and the id in them.
    attributes: Option<(&'a Compound, Option<&'a String>)>,
    name: Option<&'a String>,
}

impl<'a> Tag<'a> {
    /// These are the parts of the tag `tree`.
    spec fn parts_of(self, tree: Tree) -> bool {
        &&& match self.attributes {
            Some((fields, id)) => attributes_in(tree) == Some(fields.map()) && match id {
                Some(s) => text_part(fields.map(), "id"@) == Some(s@),
                None => text_part(fields.map(), "id"@) is None,
            },
            None => attributes_in(tree) is None,
        }
        &&& match self.name {
            Some(s) => name_in(tree) == Some(s@),
            None => name_in(tree) is None,
        }
    }
}

/// Reads an item's tag; `Err` where it has not the shape of one.
fn read_tag(value: &Value) -> (tag: Result<Tag<'_>, ()>)
    ensures
        tag is Ok <==> tag_shaped(value.tree()),
        tag matches Ok(tag) ==> tag.parts_of(value.tree()),
{
    let attributes = match part_of(value, "ExtraAttributes", 0, 2) {
        Ok(Some(inner)) => match read_attributes(inner) {
            Ok(found) => found,
            Err(()) => return Err(()),
        },
        Ok(None) => None,
        Err(()) => return Err(()),
    };
    let name = match part_of(value, "display", 1, 2) {
        Ok(Some(inner)) => match read_display(inner) {
            Ok(found) => found,
            Err(()) => return Err(()),
        },
        Ok(None) => None,
        Err(()) => return Err(()),
    };
    Ok(Tag { attributes, name })
}

/// Reads one item stack, its count and its tag; `Err` where it has not the
/// shape of one.
fn read_stack(stack: &Value) -> (parts: Result<(i8, Option<Tag<'_>>), ()>)
    ensures
        parts is Ok <==> stack_shaped(stack.tree()),
        parts matches Ok((count, tag)) ==> {
            let fields = stack.tree()->Compound_0;
            &&& count == fields["Count"@].integer()->0
            &&& match tag {
                Some(tag) => fields.contains_key("tag"@) && tag.parts_of(fields["tag"@]),
                None => !fields.contains_key("tag"@),
            }
        },
{
    let fields = match as_compound(stack) {
        Some(c) => c,
        None => return Err(()),
    };
    let count: i8 = match fields.get("Count") {
        Some(value) => match as_int(value) {
            Some(n) => if -128 <= n && n <= 127 {
                n as i8
            } else {
                return Err(());
            },
            None => return Err(()),
        },
        None => return Err(()),
    };
    match fields.get("tag") {
        None => Ok((count, None)),
        Some(value) => match read_tag(value) {
            Ok(tag) => Ok((count, Some(tag))),
            Err(()) => Err(()),
        },
    }
}

/// Reads a decoded NBT value as an item.
pub fn decode_item_value(value: &Value) -> (item: Result<DecodedItem, ParseError>)
    ensures
        reports(item, finding(value.tree())),
{
    let root = match as_compound(value) {
        Some(c) => c,
        None => return Err(ParseError::Nbt(shape_error())),
    };
    let stacks = match root.get("i") {
        Some(Value::List(stacks)) => stacks,
        _ => return Err(ParseError::Nbt(shape_error())),
    };
    let ghost trees = root.map()["i"@]->List_0;
    let mut k: usize = 0;
    while k < stacks.len()
        invariant
            k <= stacks@.len() == trees.len(),
            forall|j: int| 0 <= j < stacks@.len() ==> stacks@[j].tree() == #[trigger] trees[j],
            forall|j: int| 0 <= j < k ==> stack_shaped(#[trigger] trees[j]),
            value.tree() == Tree::Compound(root.map()),
            root.map().contains_key("i"@),
            root.map()["i"@] == Tree::List(trees),
        decreases stacks@.len() - k,
    {
        assert(stacks@[k as int].tree() == trees[k as int]);
        if read_stack(&stacks[k]).is_err() {
            return Err(ParseError::Nbt(shape_error()));
        }
        k += 1;
    }
    if stacks.len() == 0 {
        return Err(ParseError::EmptyItemList);
    }
    assert(stacks@[0].tree() == trees[0]);
    let (count, tag) = match read_stack(&stacks[0]) {
        Ok(first) => first,
        Err(()) => return Err(ParseError::Nbt(shape_error())),
    };
    let (attributes, id, name) = match tag {
        Some(Tag { attributes: Some((attributes, Some(id))), name }) => (attributes, id, name),
        _ => return Err(ParseError::MissingSkyblockId),
    };
    let display_name = match name {
        Some(name) => strip_color_codes(name.as_str()),
        None => id.clone(),
    };
    let mut rest = attributes.duplicate();
    rest.remove("id");
    Ok(
        DecodedItem {
            skyblock_item_id: id.clone(),
            display_name,
            count,
            extra_attributes: Some(Value::Compound(rest)),
        },
    )
}

/// Decodes NBT bytes (neither base64 nor gzip) into a [`DecodedItem`].
pub fn decode_nbt_bytes(nbt_bytes: &[u8]) -> (item: Result<DecodedItem, ParseError>)
    ensures
        reports(item, bytes_finding(nbt_bytes@)),
{
    match read(nbt_bytes) {
        Ok(value) => decode_item_value(&value),
        Err(e) => Err(ParseError::Nbt(e)),
    }
}

// ---------------------------------------------------------------------
// The wire format
// ---------------------------------------------------------------------

/// What the standard base64 alphabet with padding decodes a text to.
pub uninterp spec fn base64_decoded(text: Seq<char>) -> Option<Seq<u8>>;

/// What the first gzip member of some bytes decompresses to.
pub uninterp spec fn gunzipped(bytes: Seq<u8>) -> Option<Seq<u8>>;

/// Calls `decode` of `base64::prelude::BASE64_STANDARD`. It reads the text
/// alone; the claim is that the bytes are the named ones, and that an error
/// comes where nothing is named.
#[verifier::external_body]
pub(crate) fn base64_decode(text: &str) -> (bytes: Result<Vec<u8>, base64::DecodeError>)
    ensures
        match bytes {
            Ok(b) => base64_decoded(text@) == Some(b@),
            Err(_) => base64_decoded(text@) is None,
        },
{
    base64::Engine::decode(&base64::prelude::BASE64_STANDARD, text)
}

/// Reads a `flate2::read::GzDecoder` over the bytes to its end. It reads
/// the bytes alone; the claim is that the output is the named one, and that
/// an error comes where nothing is named.
#[verifier::external_body]
fn gunzip(bytes: &[u8]) -> (out: Result<Vec<u8>, std::io::Error>)
    ensures
        match out {
            Ok(b) => gunzipped(bytes@) == Some(b@),
            Err(_) => gunzipped(bytes@) is None,
        },
{
    let mut out = Vec::new();
    match std::io::Read::read_to_end(&mut flate2::read::GzDecoder::new(bytes), &mut out) {
        Ok(_) => Ok(out),
        Err(e) => Err(e),
    }
}

/// `result` says what the item bytes `text` hold.
pub open spec fn wire_reports(result: Result<DecodedItem, ParseError>, text: Seq<char>) -> bool {
    match base64_decoded(text) {
        None => result matches Err(ParseError::Base64(_)),
        Some(compressed) => match gunzipped(compressed) {
            None => result matches Err(ParseError::Gzip(_)),
            Some(bytes) => reports(result, bytes_finding(bytes)),
        },
    }
}

/// Decodes base64-encoded, gzip-compressed item NBT into a [`DecodedItem`].
pub fn decode_item_bytes(item_bytes: &str) -> (item: Result<DecodedItem, ParseError>)
    ensures
        wire_reports(item, item_bytes@),
{
    let compressed = match base64_decode(item_bytes) {
        Ok(bytes) => bytes,
        Err(e) => return Err(ParseError::Base64(e)),
    };
    let decompressed = match gunzip(compressed.as_slice()) {
        Ok(bytes) => bytes,
        Err(e) => return Err(ParseError::Gzip(e)),
    };
    decode_nbt_bytes(decompressed.as_slice())
}

/// `item` is what `raw` lists, with `decoded` as its item.
pub open spec fn listed_as(item: ParsedItem, raw: RawAuction, decoded: DecodedItem) -> bool {
    &&& item.uuid@ == raw.uuid@
    &&& item.auctioneer@ == raw.auctioneer@
    &&& item.skyblock_item_id == decoded.skyblock_item_id
    &&& item.display_name == decoded.display_name
    &&& item.count == decoded.count
    &&& item.starting_bid == raw.starting_bid
    &&& item.bin == (raw.bin == Some(true))
    &&& item.end == raw.end
    &&& item.extra_attributes == decoded.extra_attributes
}

/// Puts a decoded item beside the fields of the auction that lists it.
pub fn attach(raw: &RawAuction, decoded: DecodedItem) -> (item: ParsedItem)
    ensures
        listed_as(item, *raw, decoded),
{
    ParsedItem {
        uuid: raw.uuid.clone(),
        auctioneer: raw.auctioneer.clone(),
        skyblock_item_id: decoded.skyblock_item_id,
        display_name: decoded.display_name,
        count: decoded.count,
        starting_bid: raw.starting_bid,
        bin: match raw.bin {
            Some(bin) => bin,
            None => false,
        },
        end: raw.end,
        extra_attributes: decoded.extra_attributes,
    }
}

/// Decodes one auction's item bytes into a [`ParsedItem`].
pub fn parse_item(raw: &RawAuction) -> (item: Result<ParsedItem, ParseError>)
    ensures
        match item {
            Ok(item) => exists|decoded: DecodedItem|
                wire_reports(Ok::<DecodedItem, ParseError>(decoded), raw.item_bytes@) && #[trigger]
                    listed_as(item, *raw, decoded),
            Err(e) => wire_reports(Err::<DecodedItem, ParseError>(e), raw.item_bytes@),
        },
{
    match decode_item_bytes(raw.item_bytes.as_str()) {
        Ok(decoded) => {
            let item = attach(raw, decoded);
            assert(listed_as(item, *raw, decoded));
            Ok(item)
        },
        Err(e) => Err(e),
    }
}

/// Strips formatting codes, leaving a plain-text name.
pub fn strip_color_codes(input: &str) -> (out: String)
    ensures
        out@ == plain(input@),
{
    let chars = to_chars(input);
    let mut out = String::new();
    let mut i: usize = 0;
    assert(chars@.skip(0) =~= chars@);
    assert(plain(chars@) =~= out@ + plain(chars@));
    while i < chars.len()
        invariant
            i <= chars@.len(),
            chars@ == input@,
            plain(input@) == out@ + plain(chars@.skip(i as int)),
        decreases chars@.len() - i,
    {
        let ghost rest = chars@.skip(i as int);
        if chars[i] == '\u{00a7}' {
            if i + 1 < chars.len() {
                assert(rest.skip(2) =~= chars@.skip(i + 2));
                i += 2;
            } else {
                i += 1;
                assert(chars@.skip(i as int) =~= Seq::<char>::empty());
            }
        } else {
            let ghost before = out@;
            out.push(chars[i]);
            assert(rest.skip(1) =~= chars@.skip(i + 1));
            i += 1;
            assert(before + plain(rest) =~= out@ + plain(chars@.skip(i as int)));
        }
    }
    assert(chars@.skip(i as int) =~= Seq::<char>::empty());
    assert(out@ + Seq::<char>::empty() =~= out@);
    out
}

/// Formatting codes and nothing else are stripped: a text without section
/// signs stays as it is, and none is left in what comes out.
pub proof fn law_plain_text_has_no_codes(s: Seq<char>)
    ensures
        !plain(s).contains('\u{00a7}'),
        !s.contains('\u{00a7}') ==> plain(s) == s,
    decreases s.len(),
{
    if s.len() > 0 {
        if s[0] == '\u{00a7}' {
            assert(s.contains(s[0]));
            if s.len() > 1 {
                law_plain_text_has_no_codes(s.skip(2));
            }
        } else {
            let rest = s.skip(1);
            law_plain_text_has_no_codes(rest);
            assert forall|i: int| 0 <= i < plain(s).len() implies plain(s)[i] != '\u{00a7}' by {
                if i > 0 {
                    assert(plain(s)[i] == plain(rest)[i - 1]);
                    assert(plain(rest).contains(plain(rest)[i - 1]));
                }
            }
            if !s.contains('\u{00a7}') {
                assert forall|i: int| 0 <= i < rest.len() implies rest[i] != '\u{00a7}' by {
                    assert(s.contains(s[i + 1]));
                }
                assert(seq![s[0]] + rest =~= s);
            }
        }
    }
}

} // verus!
