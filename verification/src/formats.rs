//! The markdown test file format.
//!
//! A test file has one level-one section per group of settings. Under "Executing your compiler"
//! and "Executing the compiled binary" each modifier is a level-two heading with its name,
//! followed by a code block with its argument where it takes one. Under "Meta" each key is a
//! level-two heading followed by a code block with its value.
use vstd::prelude::*;
use markdown::mdast::{Code, Heading, Node, Paragraph, Root, Text};
use indexmap::IndexMap;
use crate::entries::{
    entries_from_pairs, entry_get, entry_index, entry_insert, entry_remove, has_key, last_value, lemma_entry_index,
    lemma_get_from_pairs, lemma_remove_get,
};
use crate::client::{DetailView, Test, TestDetail, TestView};
use crate::modifiers::{
    CompilerFailReason, CrashSignal, ModifierView, TestModifier, modifier_arg_spec,
    modifier_arg_to_string, modifier_name_spec, modifiers_view, reason_name, signal_name,
};
use crate::text::{
    IntProblem, bool_text, bool_to_string, concat, concat3, parse_bool, parse_bool_spec, parse_u8,
    parse_unsigned_spec, same_text, trim, trim_spec, lemma_trim_plain, decimal, lemma_parse_decimal_u8,
};

verus! {

/// One block of a markdown document, as far as the test format reads it.
#[derive(Debug, Clone)]
pub enum MdBlock {
    Heading { depth: u8, text: String },
    Code { value: String },
    Other,
}

/// The abstract value of an [`MdBlock`].
pub enum BlockView {
    Heading { depth: u8, text: Seq<char> },
    Code { value: Seq<char> },
    Other,
}

impl View for MdBlock {
    type V = BlockView;

    open spec fn view(&self) -> BlockView {
        match self {
            MdBlock::Heading { depth, text } => BlockView::Heading { depth: *depth, text: text@ },
            MdBlock::Code { value } => BlockView::Code { value: value@ },
            MdBlock::Other => BlockView::Other,
        }
    }
}

/// The views of a sequence of blocks.
pub open spec fn blocks_view(v: Seq<MdBlock>) -> Seq<BlockView> {
    v.map_values(|b: MdBlock| b@)
}

impl MdBlock {
    /// A copy of this block.
    pub fn duplicate(&self) -> (res: Self)
        ensures
            res@ == self@,
    {
        match self {
            MdBlock::Heading { depth, text } => MdBlock::Heading { depth: *depth, text: text.clone() },
            MdBlock::Code { value } => MdBlock::Code { value: value.clone() },
            MdBlock::Other => MdBlock::Other,
        }
    }
}

/// Why a test file could not be read.
#[derive(Debug, Clone)]
pub enum FormatError {
    FileRead { path: String },
    DuplicateHeading { heading: String },
    MalformedModifier { message: String },
    MissingSection { section: String },
    MissingValue { key: String },
}

/// The abstract value of a [`FormatError`].
pub enum FormatErrorView {
    FileRead { path: Seq<char> },
    DuplicateHeading { heading: Seq<char> },
    MalformedModifier { message: Seq<char> },
    MissingSection { section: Seq<char> },
    MissingValue { key: Seq<char> },
}

impl View for FormatError {
    type V = FormatErrorView;

    open spec fn view(&self) -> FormatErrorView {
        match self {
            FormatError::FileRead { path } => FormatErrorView::FileRead { path: path@ },
            FormatError::DuplicateHeading { heading } => FormatErrorView::DuplicateHeading { heading: heading@ },
            FormatError::MalformedModifier { message } => FormatErrorView::MalformedModifier {
                message: message@,
            },
            FormatError::MissingSection { section } => FormatErrorView::MissingSection { section: section@ },
            FormatError::MissingValue { key } => FormatErrorView::MissingValue { key: key@ },
        }
    }
}

/// The headings and keys of a test file.
#[derive(Debug, Copy, Clone, PartialEq, Eq, Structural)]
pub enum Keys {
    CompilerModifiers,
    BinaryModifiers,
    Meta,
    Hash,
    Creator,
    AdminAuthored,
    LimitedToCategory,
}

/// The text of a key.
pub open spec fn key_text(k: Keys) -> Seq<char> {
    match k {
        Keys::CompilerModifiers => "Executing your compiler"@,
        Keys::BinaryModifiers => "Executing the compiled binary"@,
        Keys::Meta => "Meta"@,
        Keys::Hash => "Hash"@,
        Keys::Creator => "Creator"@,
        Keys::AdminAuthored => "Admin Authored"@,
        Keys::LimitedToCategory => "Limited to Category"@,
    }
}

impl Keys {
    /// The text of this key, as it is written in a test file.
    pub fn text(&self) -> (res: String)
        ensures
            res@ == key_text(*self),
    {
        match self {
            Keys::CompilerModifiers => String::from_str("Executing your compiler"),
            Keys::BinaryModifiers => String::from_str("Executing the compiled binary"),
            Keys::Meta => String::from_str("Meta"),
            Keys::Hash => String::from_str("Hash"),
            Keys::Creator => String::from_str("Creator"),
            Keys::AdminAuthored => String::from_str("Admin Authored"),
            Keys::LimitedToCategory => String::from_str("Limited to Category"),
        }
    }
}

} // verus!

verus! {

/// A level-one section of a test file: its heading and the blocks that the format reads in it.
pub type SectionView = (Seq<char>, Seq<BlockView>);

/// The state of reading a document into sections.
pub struct AssocState {
    pub sections: Seq<SectionView>,
    pub current: Option<Seq<char>>,
    pub batch: Seq<BlockView>,
    pub dup: Option<Seq<char>>,
}

/// The headings of a sequence of sections.
pub open spec fn section_keys(secs: Seq<SectionView>) -> Seq<Seq<char>> {
    secs.map_values(|s: SectionView| s.0)
}

/// The sections with the open section closed.
pub open spec fn closed_sections(st: AssocState) -> Seq<SectionView> {
    match st.current {
        Some(h) => st.sections.push((h, st.batch)),
        None => st.sections,
    }
}

/// Reads one block: a level-one heading opens a section, code blocks and level-two headings
/// go to the open section, other blocks are dropped; a repeated section heading is an error.
pub open spec fn assoc_step(st: AssocState, b: BlockView) -> AssocState {
    if st.dup is Some {
        st
    } else {
        match b {
            BlockView::Heading { depth, text } => if depth == 1 {
                let secs = closed_sections(st);
                let h = trim_spec(text);
                if section_keys(secs).contains(h) {
                    AssocState { sections: secs, current: None, batch: Seq::empty(), dup: Some(h) }
                } else {
                    AssocState { sections: secs, current: Some(h), batch: Seq::empty(), dup: None }
                }
            } else if depth == 2 {
                AssocState { batch: st.batch.push(b), ..st }
            } else {
                st
            },
            BlockView::Code { .. } => AssocState { batch: st.batch.push(b), ..st },
            BlockView::Other => st,
        }
    }
}

/// The step of reading into sections, as a function value.
pub open spec fn assoc_fn() -> spec_fn(AssocState, BlockView) -> AssocState {
    |st: AssocState, b: BlockView| assoc_step(st, b)
}

/// The state before any block is read.
pub open spec fn assoc_init() -> AssocState {
    AssocState { sections: Seq::empty(), current: None, batch: Seq::empty(), dup: None }
}

/// The sections of a document, in order, or the first repeated section heading.
pub open spec fn associate_spec(bs: Seq<BlockView>) -> Result<Seq<SectionView>, Seq<char>> {
    let st = bs.fold_left(assoc_init(), assoc_fn());
    match st.dup {
        Some(h) => Err(h),
        None => Ok(closed_sections(st)),
    }
}

proof fn lemma_assoc_sticky(rest: Seq<BlockView>, st: AssocState)
    requires
        st.dup is Some,
    ensures
        rest.fold_left(st, assoc_fn()) == st,
    decreases rest.len(),
{
    if rest.len() > 0 {
        lemma_assoc_sticky(rest.drop_last(), st);
    }
}

/// The sections that an `IndexMap` from headings to blocks holds, in order.
pub uninterp spec fn section_entries(m: IndexMap<String, Vec<MdBlock>>) -> Seq<SectionView>;

/// The keys and values that an `IndexMap` from keys to optional values holds, in order.
pub uninterp spec fn value_entries(m: IndexMap<String, Option<String>>) -> Seq<KeyValueView>;

/// `IndexMap::new`: a map with no entries.
#[verifier::external_body]
fn new_section_map() -> (res: IndexMap<String, Vec<MdBlock>>)
    ensures
        section_entries(res) == Seq::<SectionView>::empty(),
{
    IndexMap::new()
}

/// `IndexMap::insert`: an entry with the same heading keeps its place and takes the blocks;
/// otherwise the new entry goes last.
#[verifier::external_body]
fn insert_section(m: &mut IndexMap<String, Vec<MdBlock>>, heading: String, blocks: Vec<MdBlock>)
    ensures
        section_entries(*final(m)) == entry_insert(section_entries(*old(m)), heading@, blocks_view(blocks@)),
{
    m.insert(heading, blocks);
}

/// `IndexMap::contains_key`: whether an entry has this heading.
#[verifier::external_body]
fn has_section(m: &IndexMap<String, Vec<MdBlock>>, heading: &str) -> (res: bool)
    ensures
        res == has_key(section_entries(*m), heading@),
{
    m.contains_key(heading)
}

/// `IndexMap::shift_remove`: takes out the entry with this heading, the others keeping their
/// order, and gives its blocks.
#[verifier::external_body]
fn remove_section(m: &mut IndexMap<String, Vec<MdBlock>>, heading: &str) -> (res: Option<Vec<MdBlock>>)
    ensures
        section_entries(*final(m)) == entry_remove(section_entries(*old(m)), heading@),
        match entry_get(section_entries(*old(m)), heading@) {
            Some(b) => res matches Some(v) && blocks_view(v@) == b,
            None => res is None,
        },
{
    m.shift_remove(heading)
}

/// `IndexMap::from_iter`: the pairs inserted in order, so that a later pair with a key already
/// seen replaces the value in place.
#[verifier::external_body]
fn value_map_from(pairs: Vec<(String, Option<String>)>) -> (res: IndexMap<String, Option<String>>)
    ensures
        value_entries(res) == entries_from_pairs(kvs_view(pairs@)),
{
    IndexMap::from_iter(pairs)
}

/// `IndexMap::shift_remove`: takes out the entry with this key, the others keeping their
/// order, and gives its value.
#[verifier::external_body]
fn remove_value(m: &mut IndexMap<String, Option<String>>, key: &str) -> (res: Option<Option<String>>)
    ensures
        value_entries(*final(m)) == entry_remove(value_entries(*old(m)), key@),
        match entry_get(value_entries(*old(m)), key@) {
            Some(v) => res matches Some(x) && opt_view(x) == v,
            None => res is None,
        },
{
    m.shift_remove(key)
}

proof fn lemma_keys_contain(secs: Seq<SectionView>, h: Seq<char>)
    ensures
        section_keys(secs).contains(h) <==> has_key(secs, h),
{
    if has_key(secs, h) {
        let i = choose|i: int| 0 <= i < secs.len() && (#[trigger] secs[i]).0 == h;
        assert(section_keys(secs)[i] == h);
    }
    if section_keys(secs).contains(h) {
        let i = choose|i: int| 0 <= i < section_keys(secs).len() && section_keys(secs)[i] == h;
        assert(secs[i].0 == h);
    }
}

/// Groups the blocks of a document by level-one heading, keeping the code blocks and the
/// level-two headings of each section.
pub fn associate_to_headings(nodes: &Vec<MdBlock>) -> (res: Result<IndexMap<String, Vec<MdBlock>>, FormatError>)
    ensures
        match associate_spec(blocks_view(nodes@)) {
            Ok(secs) => res matches Ok(m) && section_entries(m) == secs,
            Err(h) => res matches Err(e) && e@ == FormatErrorView::DuplicateHeading { heading: h },
        },
{
    let ghost bs = blocks_view(nodes@);
    let mut result = new_section_map();
    let mut current_batch: Vec<MdBlock> = Vec::new();
    let mut current_heading: Option<String> = None;
    let mut i: usize = 0;
    while i < nodes.len()
        invariant
            i <= nodes.len(),
            bs == blocks_view(nodes@),
            ({
                let st = bs.take(i as int).fold_left(assoc_init(), assoc_fn());
                &&& st.dup is None
                &&& st.sections == section_entries(result)
                &&& st.batch == blocks_view(current_batch@)
                &&& st.current == (match current_heading {
                    Some(h) => Some(h@),
                    None => None::<Seq<char>>,
                })
                &&& (st.current matches Some(h) ==> !has_key(st.sections, h))
            }),
        decreases nodes.len() - i,
    {
        let ghost st0 = bs.take(i as int).fold_left(assoc_init(), assoc_fn());
        assert(bs.take(i + 1).drop_last() =~= bs.take(i as int));
        assert(bs.take(i + 1).last() == nodes@[i as int]@);
        match &nodes[i] {
            MdBlock::Heading { depth, text } => {
                if *depth == 1 {
                    let taken = current_heading.take();
                    match taken {
                        Some(h) => {
                            let mut batch: Vec<MdBlock> = Vec::new();
                            std::mem::swap(&mut batch, &mut current_batch);
                            proof {
                                lemma_entry_index(section_entries(result), h@);
                            }
                            insert_section(&mut result, h, batch);
                        },
                        None => {},
                    }
                    assert(section_entries(result) == closed_sections(st0));
                    let header = trim(text.as_str());
                    proof {
                        lemma_keys_contain(closed_sections(st0), header@);
                    }
                    if has_section(&result, header.as_str()) {
                        proof {
                            let st1 = bs.take(i + 1).fold_left(assoc_init(), assoc_fn());
                            assert(st1.dup == Some(header@));
                            lemma_assoc_sticky(bs.subrange(i + 1, bs.len() as int), st1);
                            bs.lemma_fold_left_split(assoc_init(), assoc_fn(), i + 1);
                            assert(bs.subrange(0, i + 1) =~= bs.take(i + 1));
                        }
                        return Err(FormatError::DuplicateHeading { heading: header });
                    }
                    current_batch = Vec::new();
                    current_heading = Some(header);
                } else if *depth == 2 {
                    current_batch.push(nodes[i].duplicate());
                    assert(blocks_view(current_batch@) =~= st0.batch.push(nodes@[i as int]@));
                }
            },
            MdBlock::Code { .. } => {
                current_batch.push(nodes[i].duplicate());
                assert(blocks_view(current_batch@) =~= st0.batch.push(nodes@[i as int]@));
            },
            MdBlock::Other => {},
        }
        i = i + 1;
    }
    let ghost st = bs.take(i as int).fold_left(assoc_init(), assoc_fn());
    assert(bs.take(i as int) =~= bs);
    match current_heading {
        Some(h) => {
            proof {
                lemma_entry_index(section_entries(result), h@);
            }
            insert_section(&mut result, h, current_batch);
        },
        None => {},
    }
    Ok(result)
}

} // verus!

verus! {

/// Which level-two headings take a value from the code block that follows them.
#[derive(Debug, Clone, Copy, PartialEq, Eq, Structural)]
pub enum ValueRule {
    /// Every key takes a value.
    AllKeys,
    /// A modifier takes a value unless it is one that needs no argument.
    ModifierArguments,
}

/// Whether a modifier of this name takes an argument.
pub open spec fn requires_argument_spec(name: Seq<char>) -> bool {
    name != "ShouldSucceed"@ && name != "ShouldTimeout"@
}

/// Whether the key `h` takes a value under `rule`.
pub open spec fn needs_value(rule: ValueRule, h: Seq<char>) -> bool {
    match rule {
        ValueRule::AllKeys => true,
        ValueRule::ModifierArguments => requires_argument_spec(h),
    }
}

/// Whether a modifier of this name takes an argument.
pub fn modifier_requires_argument(modifier: &str) -> (res: bool)
    ensures
        res == requires_argument_spec(modifier@),
{
    !same_text(modifier, "ShouldSucceed") && !same_text(modifier, "ShouldTimeout")
}

/// A key with its value, if it has one.
pub type KeyValueView = (Seq<char>, Option<Seq<char>>);

/// The state of reading the keys of a section: the pairs so far, and a key that waits for the
/// code block with its value.
pub struct KvState {
    pub out: Seq<KeyValueView>,
    pub pending: Option<Seq<char>>,
}

/// Reads one block of a section.
pub open spec fn kv_step(rule: ValueRule, st: KvState, b: BlockView) -> KvState {
    match st.pending {
        None => match b {
            BlockView::Heading { depth, text } => if depth == 2 {
                let h = trim_spec(text);
                if needs_value(rule, h) {
                    KvState { out: st.out, pending: Some(h) }
                } else {
                    KvState { out: st.out.push((h, None)), pending: None }
                }
            } else {
                st
            },
            _ => st,
        },
        Some(h) => match b {
            BlockView::Code { value } => KvState { out: st.out.push((h, Some(value))), pending: None },
            _ => st,
        },
    }
}

/// The step of reading keys, as a function value.
pub open spec fn kv_fn(rule: ValueRule) -> spec_fn(KvState, BlockView) -> KvState {
    |st: KvState, b: BlockView| kv_step(rule, st, b)
}

/// The keys of a section with their values: each level-two heading, with the first code
/// block after it where it takes a value; a key whose value never comes is dropped.
pub open spec fn key_values_spec(rule: ValueRule, bs: Seq<BlockView>) -> Seq<KeyValueView> {
    bs.fold_left(KvState { out: Seq::empty(), pending: None }, kv_fn(rule)).out
}

/// The views of key-value pairs.
pub open spec fn kvs_view(v: Seq<(String, Option<String>)>) -> Seq<KeyValueView> {
    v.map_values(
        |p: (String, Option<String>)|
            (
                p.0@,
                match p.1 {
                    Some(x) => Some(x@),
                    None => None::<Seq<char>>,
                },
            ),
    )
}

fn needs_value_exec(rule: ValueRule, h: &str) -> (res: bool)
    ensures
        res == needs_value(rule, h@),
{
    match rule {
        ValueRule::AllKeys => true,
        ValueRule::ModifierArguments => modifier_requires_argument(h),
    }
}

/// The keys of a section with their values.
pub fn extract_key_values(nodes: &Vec<MdBlock>, rule: ValueRule) -> (res: Result<
    Vec<(String, Option<String>)>,
    FormatError,
>)
    ensures
        res matches Ok(v) && kvs_view(v@) == key_values_spec(rule, blocks_view(nodes@)),
{
    let ghost bs = blocks_view(nodes@);
    let mut result: Vec<(String, Option<String>)> = Vec::new();
    let mut pending: Option<String> = None;
    let mut i: usize = 0;
    while i < nodes.len()
        invariant
            i <= nodes.len(),
            bs == blocks_view(nodes@),
            ({
                let st = bs.take(i as int).fold_left(KvState { out: Seq::empty(), pending: None }, kv_fn(rule));
                &&& st.out == kvs_view(result@)
                &&& st.pending == (match pending {
                    Some(h) => Some(h@),
                    None => None::<Seq<char>>,
                })
            }),
        decreases nodes.len() - i,
    {
        let ghost st0 = bs.take(i as int).fold_left(KvState { out: Seq::empty(), pending: None }, kv_fn(rule));
        assert(bs.take(i + 1).drop_last() =~= bs.take(i as int));
        assert(bs.take(i + 1).last() == nodes@[i as int]@);
        let taken = pending.take();
        match taken {
            None => {
                match &nodes[i] {
                    MdBlock::Heading { depth, text } => {
                        if *depth == 2 {
                            let header = trim(text.as_str());
                            if needs_value_exec(rule, header.as_str()) {
                                pending = Some(header);
                            } else {
                                result.push((header, None));
                                assert(kvs_view(result@) =~= st0.out.push((trim_spec(text@), None)));
                            }
                        }
                    },
                    _ => {},
                }
            },
            Some(h) => {
                match &nodes[i] {
                    MdBlock::Code { value } => {
                        result.push((h, Some(value.clone())));
                        assert(kvs_view(result@) =~= st0.out.push((st0.pending->0, Some(value@))));
                    },
                    _ => {
                        pending = Some(h);
                    },
                }
            },
        }
        i = i + 1;
    }
    assert(bs.take(i as int) =~= bs);
    Ok(result)
}

/// The value stored under `key`: the last pair with that key wins, as in a map built from the
/// pairs in order.
pub open spec fn lookup_value(kvs: Seq<KeyValueView>, key: Seq<char>) -> Option<Option<Seq<char>>>
    decreases kvs.len(),
{
    if kvs.len() == 0 {
        None
    } else if kvs.last().0 == key {
        Some(kvs.last().1)
    } else {
        lookup_value(kvs.drop_last(), key)
    }
}

proof fn lemma_lookup_is_last(kvs: Seq<KeyValueView>, key: Seq<char>)
    ensures
        lookup_value(kvs, key) == last_value(kvs, key),
    decreases kvs.len(),
{
    if kvs.len() > 0 {
        lemma_lookup_is_last(kvs.drop_last(), key);
    }
}

/// The value of `name` among `values`, taken out of them, or the error that it is missing.
pub fn extract_value(name: Keys, values: &mut IndexMap<String, Option<String>>) -> (res: Result<String, FormatError>)
    ensures
        value_entries(*final(values)) == entry_remove(value_entries(*old(values)), key_text(name)),
        match entry_get(value_entries(*old(values)), key_text(name)) {
            Some(Some(v)) => res matches Ok(r) && r@ == v,
            _ => res matches Err(e) && e@ == FormatErrorView::MissingValue { key: key_text(name) },
        },
{
    let key = name.text();
    match remove_value(values, key.as_str()) {
        Some(Some(v)) => Ok(v),
        _ => Err(FormatError::MissingValue { key }),
    }
}

/// The blocks of the section `name`, or the error that it is missing.
pub open spec fn section_lookup(secs: Seq<SectionView>, key: Seq<char>) -> Option<Seq<BlockView>>
    decreases secs.len(),
{
    if secs.len() == 0 {
        None
    } else if secs[0].0 == key {
        Some(secs[0].1)
    } else {
        section_lookup(secs.drop_first(), key)
    }
}

/// A copy of a sequence of blocks.
pub fn copy_blocks(v: &Vec<MdBlock>) -> (res: Vec<MdBlock>)
    ensures
        blocks_view(res@) == blocks_view(v@),
{
    let mut out: Vec<MdBlock> = Vec::new();
    let mut j: usize = 0;
    while j < v.len()
        invariant
            j <= v.len(),
            out.len() == j,
            forall|x: int| 0 <= x < j ==> #[trigger] out@[x]@ == v@[x]@,
        decreases v.len() - j,
    {
        out.push(v[j].duplicate());
        j = j + 1;
    }
    assert(blocks_view(out@) =~= blocks_view(v@));
    out
}

proof fn lemma_section_lookup(secs: Seq<SectionView>, key: Seq<char>)
    ensures
        section_lookup(secs, key) == entry_get(secs, key),
    decreases secs.len(),
{
    if secs.len() > 0 {
        lemma_section_lookup(secs.drop_first(), key);
        if secs[0].0 != key {
            lemma_entry_index(secs.drop_first(), key);
            if let Some(i) = entry_index(secs.drop_first(), key) {
                assert(secs[i + 1] == secs.drop_first()[i]);
            }
        }
    }
}

/// The blocks of the section `name`, taken out of `nodes`, or the error that it is missing.
pub fn extract_heading(name: Keys, nodes: &mut IndexMap<String, Vec<MdBlock>>) -> (res: Result<Vec<MdBlock>, FormatError>)
    ensures
        section_entries(*final(nodes)) == entry_remove(section_entries(*old(nodes)), key_text(name)),
        match section_lookup(section_entries(*old(nodes)), key_text(name)) {
            Some(b) => res matches Ok(v) && blocks_view(v@) == b,
            None => res matches Err(e) && e@ == FormatErrorView::MissingSection { section: key_text(name) },
        },
{
    proof {
        lemma_section_lookup(section_entries(*nodes), key_text(name));
    }
    let key = name.text();
    match remove_section(nodes, key.as_str()) {
        Some(v) => Ok(v),
        None => Err(FormatError::MissingSection { section: key }),
    }
}

} // verus!

verus! {

/// The text of std's `ParseIntError` for each problem.
pub open spec fn int_problem_text(p: IntProblem) -> Seq<char> {
    match p {
        IntProblem::Empty => "cannot parse integer from empty string"@,
        IntProblem::InvalidDigit => "invalid digit found in string"@,
        IntProblem::PosOverflow => "number too large to fit in target type"@,
    }
}

fn int_problem_message(p: IntProblem) -> (res: String)
    ensures
        res@ == int_problem_text(p),
{
    match p {
        IntProblem::Empty => String::from_str("cannot parse integer from empty string"),
        IntProblem::InvalidDigit => String::from_str("invalid digit found in string"),
        IntProblem::PosOverflow => String::from_str("number too large to fit in target type"),
    }
}

/// The message for a modifier given without its required value.
pub open spec fn requires_value_msg(name: Seq<char>) -> Seq<char> {
    "Modifier `"@ + name + "` requires a value"@
}

/// The message for an unknown crash signal.
pub open spec fn unknown_signal_msg(other: Seq<char>) -> Seq<char> {
    "Unknown crash signal `"@ + other + "`. Valid are `Abort`, `SegmentationFault`, and `FloatingPointException`"@
}

/// The message for an unknown fail reason.
pub open spec fn unknown_reason_msg(other: Seq<char>) -> Seq<char> {
    "Unknown fail reason `"@ + other + "`. Valid are `Parsing` and `SemanticAnalysis`"@
}

/// The message for an unknown modifier.
pub open spec fn unknown_modifier_msg(t: Seq<char>) -> Seq<char> {
    "Unknown modifier type `"@ + t + "`"@
}

/// The value of a modifier that requires one, or the error that it is missing.
pub fn require_value(name: &str, maybe_value: Option<String>) -> (res: Result<String, FormatError>)
    ensures
        match maybe_value {
            Some(v) => res matches Ok(r) && r@ == v@,
            None => res matches Err(e) && e@ == FormatErrorView::MalformedModifier {
                message: requires_value_msg(name@),
            },
        },
{
    match maybe_value {
        Some(v) => Ok(v),
        None => Err(FormatError::MalformedModifier { message: concat3("Modifier `", name, "` requires a value") }),
    }
}

/// The crash signal named `val`.
pub open spec fn signal_from_spec(val: Seq<char>) -> Option<CrashSignal> {
    if val == "Abort"@ {
        Some(CrashSignal::Abort)
    } else if val == "SegmentationFault"@ {
        Some(CrashSignal::SegmentationFault)
    } else if val == "FloatingPointException"@ {
        Some(CrashSignal::FloatingPointException)
    } else {
        None
    }
}

/// The compiler fail reason named `val`.
pub open spec fn reason_from_spec(val: Seq<char>) -> Option<CompilerFailReason> {
    if val == "Parsing"@ {
        Some(CompilerFailReason::Parsing)
    } else if val == "SemanticAnalysis"@ {
        Some(CompilerFailReason::SemanticAnalysis)
    } else {
        None
    }
}

/// The crash signal named `val`, or the error that there is none of that name.
pub fn parse_crash_signal(val: &str) -> (res: Result<CrashSignal, FormatError>)
    ensures
        match signal_from_spec(val@) {
            Some(s) => res == Ok::<CrashSignal, FormatError>(s),
            None => res matches Err(e) && e@ == FormatErrorView::MalformedModifier {
                message: unknown_signal_msg(val@),
            },
        },
{
    if same_text(val, "Abort") {
        Ok(CrashSignal::Abort)
    } else if same_text(val, "SegmentationFault") {
        Ok(CrashSignal::SegmentationFault)
    } else if same_text(val, "FloatingPointException") {
        Ok(CrashSignal::FloatingPointException)
    } else {
        Err(
            FormatError::MalformedModifier {
                message: concat3(
                    "Unknown crash signal `",
                    val,
                    "`. Valid are `Abort`, `SegmentationFault`, and `FloatingPointException`",
                ),
            },
        )
    }
}

/// The compiler fail reason named `val`, or the error that there is none of that name.
pub fn parse_fail_reason(val: &str) -> (res: Result<CompilerFailReason, FormatError>)
    ensures
        match reason_from_spec(val@) {
            Some(r) => res == Ok::<CompilerFailReason, FormatError>(r),
            None => res matches Err(e) && e@ == FormatErrorView::MalformedModifier {
                message: unknown_reason_msg(val@),
            },
        },
{
    if same_text(val, "Parsing") {
        Ok(CompilerFailReason::Parsing)
    } else if same_text(val, "SemanticAnalysis") {
        Ok(CompilerFailReason::SemanticAnalysis)
    } else {
        Err(
            FormatError::MalformedModifier {
                message: concat3("Unknown fail reason `", val, "`. Valid are `Parsing` and `SemanticAnalysis`"),
            },
        )
    }
}

/// The modifier written as a heading `t` with the value `v`, or the message of the error.
pub open spec fn modifier_from_spec(t: Seq<char>, v: Option<Seq<char>>) -> Result<ModifierView, Seq<char>> {
    if t == "ExitCode"@ {
        match v {
            None => Err(requires_value_msg("ExitCode"@)),
            Some(x) => match parse_unsigned_spec(x, 255) {
                Ok(c) => Ok(ModifierView::ExitCode { code: c as u8 }),
                Err(p) => Err("Could not parse exit code: "@ + int_problem_text(p)),
            },
        }
    } else if t == "ExpectedOutput"@ {
        match v {
            None => Err(requires_value_msg("ExpectedOutput"@)),
            Some(x) => Ok(ModifierView::ExpectedOutput { output: x }),
        }
    } else if t == "ProgramArgument"@ {
        match v {
            None => Err(requires_value_msg("ProgramArgument"@)),
            Some(x) => Ok(ModifierView::ProgramArgument { arg: x }),
        }
    } else if t == "ProgramArgumentFile"@ {
        match v {
            None => Err(requires_value_msg("ProgramArgumentFile"@)),
            Some(x) => Ok(ModifierView::ProgramArgumentFile { contents: x }),
        }
    } else if t == "ProgramInput"@ {
        match v {
            None => Err(requires_value_msg("ProgramInput"@)),
            Some(x) => Ok(ModifierView::ProgramInput { input: x }),
        }
    } else if t == "ShouldCrash"@ {
        match v {
            None => Err(requires_value_msg("ShouldCrash"@)),
            Some(x) => match signal_from_spec(x) {
                Some(s) => Ok(ModifierView::ShouldCrash { signal: s }),
                None => Err(unknown_signal_msg(x)),
            },
        }
    } else if t == "ShouldFail"@ {
        match v {
            None => Err(requires_value_msg("ShouldFail"@)),
            Some(x) => match reason_from_spec(x) {
                Some(r) => Ok(ModifierView::ShouldFail { reason: r }),
                None => Err(unknown_reason_msg(x)),
            },
        }
    } else if t == "ShouldSucceed"@ {
        Ok(ModifierView::ShouldSucceed)
    } else if t == "ShouldTimeout"@ {
        Ok(ModifierView::ShouldTimeout)
    } else {
        Err(unknown_modifier_msg(t))
    }
}

/// The views of an optional value.
pub open spec fn opt_view(o: Option<String>) -> Option<Seq<char>> {
    match o {
        Some(x) => Some(x@),
        None => None,
    }
}

/// The modifier written as a heading `type_` with the value `value`.
pub fn modifier_from_string(type_: &str, value: Option<String>) -> (res: Result<TestModifier, FormatError>)
    ensures
        match modifier_from_spec(type_@, opt_view(value)) {
            Ok(m) => res matches Ok(x) && x@ == m,
            Err(msg) => res matches Err(e) && e@ == FormatErrorView::MalformedModifier { message: msg },
        },
{
    if same_text(type_, "ExitCode") {
        let v = require_value("ExitCode", value)?;
        match parse_u8(v.as_str()) {
            Ok(code) => Ok(TestModifier::ExitCode { code }),
            Err(p) => {
                let m = int_problem_message(p);
                Err(FormatError::MalformedModifier { message: concat("Could not parse exit code: ", m.as_str()) })
            },
        }
    } else if same_text(type_, "ExpectedOutput") {
        Ok(TestModifier::ExpectedOutput { output: require_value("ExpectedOutput", value)? })
    } else if same_text(type_, "ProgramArgument") {
        Ok(TestModifier::ProgramArgument { arg: require_value("ProgramArgument", value)? })
    } else if same_text(type_, "ProgramArgumentFile") {
        Ok(TestModifier::ProgramArgumentFile { contents: require_value("ProgramArgumentFile", value)? })
    } else if same_text(type_, "ProgramInput") {
        Ok(TestModifier::ProgramInput { input: require_value("ProgramInput", value)? })
    } else if same_text(type_, "ShouldCrash") {
        let v = require_value("ShouldCrash", value)?;
        Ok(TestModifier::ShouldCrash { signal: parse_crash_signal(v.as_str())? })
    } else if same_text(type_, "ShouldFail") {
        let v = require_value("ShouldFail", value)?;
        Ok(TestModifier::ShouldFail { reason: parse_fail_reason(v.as_str())? })
    } else if same_text(type_, "ShouldSucceed") {
        Ok(TestModifier::ShouldSucceed)
    } else if same_text(type_, "ShouldTimeout") {
        Ok(TestModifier::ShouldTimeout)
    } else {
        Err(FormatError::MalformedModifier { message: concat3("Unknown modifier type `", type_, "`") })
    }
}

} // verus!

verus! {

/// The modifiers of a section's keys in order, or the message of the first error.
pub open spec fn modifiers_from_kvs(kvs: Seq<KeyValueView>) -> Result<Seq<ModifierView>, Seq<char>>
    decreases kvs.len(),
{
    if kvs.len() == 0 {
        Ok(Seq::empty())
    } else {
        match modifiers_from_kvs(kvs.drop_last()) {
            Err(e) => Err(e),
            Ok(r) => match modifier_from_spec(kvs.last().0, kvs.last().1) {
                Ok(m) => Ok(r.push(m)),
                Err(e) => Err(e),
            },
        }
    }
}

/// The modifiers written in a section, in order.
pub fn extract_modifiers(nodes: &Vec<MdBlock>) -> (res: Result<Vec<TestModifier>, FormatError>)
    ensures
        match modifiers_from_kvs(key_values_spec(ValueRule::ModifierArguments, blocks_view(nodes@))) {
            Ok(ms) => res matches Ok(v) && modifiers_view(v@) == ms,
            Err(msg) => res matches Err(e) && e@ == FormatErrorView::MalformedModifier { message: msg },
        },
{
    let kvs = extract_key_values(nodes, ValueRule::ModifierArguments)?;
    let ghost k = kvs_view(kvs@);
    let mut result: Vec<TestModifier> = Vec::new();
    let mut i: usize = 0;
    assert(modifiers_view(result@) =~= Seq::<ModifierView>::empty());
    assert(k.take(0) =~= Seq::<KeyValueView>::empty());
    while i < kvs.len()
        invariant
            i <= kvs.len(),
            k == kvs_view(kvs@),
            k == key_values_spec(ValueRule::ModifierArguments, blocks_view(nodes@)),
            modifiers_from_kvs(k.take(i as int)) == Ok::<Seq<ModifierView>, Seq<char>>(modifiers_view(result@)),
        decreases kvs.len() - i,
    {
        assert(k.take(i + 1).drop_last() =~= k.take(i as int));
        assert(k.take(i + 1).last() == k[i as int]);
        let value = match &kvs[i].1 {
            Some(x) => Some(x.clone()),
            None => None,
        };
        assert(opt_view(value) == k[i as int].1);
        let m = modifier_from_string(kvs[i].0.as_str(), value);
        match m {
            Ok(m) => {
                let ghost before = modifiers_view(result@);
                result.push(m);
                assert(modifiers_view(result@) =~= before.push(m@));
            },
            Err(e) => {
                proof {
                    lemma_modifiers_err_sticks(k, i + 1);
                }
                return Err(e);
            },
        }
        i = i + 1;
    }
    assert(k.take(i as int) =~= k);
    Ok(result)
}

proof fn lemma_modifiers_err_sticks(k: Seq<KeyValueView>, n: int)
    requires
        0 <= n <= k.len(),
        modifiers_from_kvs(k.take(n)) is Err,
    ensures
        modifiers_from_kvs(k) == modifiers_from_kvs(k.take(n)),
    decreases k.len() - n,
{
    if n < k.len() {
        assert(k.take(n + 1).drop_last() =~= k.take(n));
        lemma_modifiers_err_sticks(k, n + 1);
    } else {
        assert(k.take(n) =~= k);
    }
}

/// What the two modifier sections of a document hold, or the first error.
pub open spec fn details_spec(bs: Seq<BlockView>) -> Result<DetailView, FormatErrorView> {
    match associate_spec(bs) {
        Err(h) => Err(FormatErrorView::DuplicateHeading { heading: h }),
        Ok(secs) => match section_lookup(secs, key_text(Keys::CompilerModifiers)) {
            None => Err(FormatErrorView::MissingSection { section: key_text(Keys::CompilerModifiers) }),
            Some(cb) => match modifiers_from_kvs(key_values_spec(ValueRule::ModifierArguments, cb)) {
                Err(m) => Err(FormatErrorView::MalformedModifier { message: m }),
                Ok(cm) => match section_lookup(secs, key_text(Keys::BinaryModifiers)) {
                    None => Err(FormatErrorView::MissingSection { section: key_text(Keys::BinaryModifiers) }),
                    Some(bb) => match modifiers_from_kvs(key_values_spec(ValueRule::ModifierArguments, bb)) {
                        Err(m) => Err(FormatErrorView::MalformedModifier { message: m }),
                        Ok(bm) => Ok(DetailView { compiler_modifiers: cm, binary_modifiers: bm }),
                    },
                },
            },
        },
    }
}

/// The message for a flag of the meta section that is not a boolean.
pub open spec fn bad_flag_msg(what: Seq<char>) -> Seq<char> {
    "Could not parse "@ + what + ": provided string was not `true` or `false`"@
}

/// The value under `key` as a required string.
pub open spec fn required_spec(kvs: Seq<KeyValueView>, key: Keys) -> Result<Seq<char>, FormatErrorView> {
    match lookup_value(kvs, key_text(key)) {
        Some(Some(v)) => Ok(v),
        _ => Err(FormatErrorView::MissingValue { key: key_text(key) }),
    }
}

/// What the meta section of a document says of the test `id` in `category`, or the first
/// error.
pub open spec fn meta_spec(bs: Seq<BlockView>, category: Seq<char>, id: Seq<char>) -> Result<
    TestView,
    FormatErrorView,
> {
    match associate_spec(bs) {
        Err(h) => Err(FormatErrorView::DuplicateHeading { heading: h }),
        Ok(secs) => match section_lookup(secs, key_text(Keys::Meta)) {
            None => Err(FormatErrorView::MissingSection { section: key_text(Keys::Meta) }),
            Some(mb) => {
                let kvs = key_values_spec(ValueRule::AllKeys, mb);
                match required_spec(kvs, Keys::Hash) {
                    Err(e) => Err(e),
                    Ok(hash) => match required_spec(kvs, Keys::Creator) {
                        Err(e) => Err(e),
                        Ok(creator) => match required_spec(kvs, Keys::AdminAuthored) {
                            Err(e) => Err(e),
                            Ok(admin_text) => match parse_bool_spec(admin_text) {
                                None => Err(FormatErrorView::MalformedModifier {
                                    message: bad_flag_msg("admin authored"@),
                                }),
                                Some(admin) => {
                                    let limited_text = match required_spec(kvs, Keys::LimitedToCategory) {
                                        Ok(v) => v,
                                        Err(_) => "false"@,
                                    };
                                    match parse_bool_spec(limited_text) {
                                        None => Err(FormatErrorView::MalformedModifier {
                                            message: bad_flag_msg("limited to category"@),
                                        }),
                                        Some(limited) => Ok(
                                            TestView {
                                                id,
                                                creator_id: creator,
                                                admin_authored: admin,
                                                limited_to_category: limited,
                                                category,
                                                hash,
                                            },
                                        ),
                                    }
                                },
                            },
                        },
                    },
                }
            },
        },
    }
}

/// The test and its details that a document describes, or the first error.
pub open spec fn from_blocks_spec(bs: Seq<BlockView>, category: Seq<char>, id: Seq<char>) -> Result<
    (TestView, DetailView),
    FormatErrorView,
> {
    match meta_spec(bs, category, id) {
        Err(e) => Err(e),
        Ok(t) => match details_spec(bs) {
            Err(e) => Err(e),
            Ok(d) => Ok((t, d)),
        },
    }
}

/// What the two modifier sections of a parsed document hold.
pub fn details_from_blocks(nodes: &Vec<MdBlock>) -> (res: Result<TestDetail, FormatError>)
    ensures
        match details_spec(blocks_view(nodes@)) {
            Ok(d) => res matches Ok(x) && x@ == d,
            Err(e) => res matches Err(x) && x@ == e,
        },
{
    let mut sections = associate_to_headings(nodes)?;
    let ghost secs = section_entries(sections);
    let compiler_nodes = extract_heading(Keys::CompilerModifiers, &mut sections)?;
    let compiler_modifiers = extract_modifiers(&compiler_nodes)?;
    proof {
        reveal_strlit("Executing your compiler");
        reveal_strlit("Executing the compiled binary");
        assert(key_text(Keys::CompilerModifiers).len() != key_text(Keys::BinaryModifiers).len());
        lemma_remove_get(secs, key_text(Keys::CompilerModifiers), key_text(Keys::BinaryModifiers));
        lemma_section_lookup(secs, key_text(Keys::BinaryModifiers));
        lemma_section_lookup(section_entries(sections), key_text(Keys::BinaryModifiers));
    }
    let binary_nodes = extract_heading(Keys::BinaryModifiers, &mut sections)?;
    let binary_modifiers = extract_modifiers(&binary_nodes)?;
    Ok(TestDetail { compiler_modifiers, binary_modifiers })
}

fn flag_from(text: &str, what: &str) -> (res: Result<bool, FormatError>)
    ensures
        match parse_bool_spec(text@) {
            Some(b) => res == Ok::<bool, FormatError>(b),
            None => res matches Err(e) && e@ == FormatErrorView::MalformedModifier { message: bad_flag_msg(what@) },
        },
{
    match parse_bool(text) {
        Some(b) => Ok(b),
        None => Err(
            FormatError::MalformedModifier {
                message: concat3("Could not parse ", what, ": provided string was not `true` or `false`"),
            },
        ),
    }
}

/// The test `id` of `category` and its details, as a parsed document describes them.
pub fn from_blocks(nodes: &Vec<MdBlock>, category: String, id: String) -> (res: Result<(Test, TestDetail), FormatError>)
    ensures
        match from_blocks_spec(blocks_view(nodes@), category@, id@) {
            Ok((t, d)) => res matches Ok(x) && x.0@ == t && x.1@ == d,
            Err(e) => res matches Err(x) && x@ == e,
        },
{
    let mut sections = associate_to_headings(nodes)?;
    let meta_nodes = extract_heading(Keys::Meta, &mut sections)?;
    let pairs = extract_key_values(&meta_nodes, ValueRule::AllKeys)?;
    let ghost kvs = kvs_view(pairs@);
    let mut meta = value_map_from(pairs);
    proof {
        reveal_strlit("Hash");
        reveal_strlit("Creator");
        reveal_strlit("Admin Authored");
        reveal_strlit("Limited to Category");
        assert(key_text(Keys::Hash).len() == 4);
        assert(key_text(Keys::Creator).len() == 7);
        assert(key_text(Keys::AdminAuthored).len() == 14);
        assert(key_text(Keys::LimitedToCategory).len() == 19);
        lemma_get_from_pairs(kvs, key_text(Keys::Hash));
        lemma_lookup_is_last(kvs, key_text(Keys::Hash));
        lemma_get_from_pairs(kvs, key_text(Keys::Creator));
        lemma_lookup_is_last(kvs, key_text(Keys::Creator));
        lemma_get_from_pairs(kvs, key_text(Keys::AdminAuthored));
        lemma_lookup_is_last(kvs, key_text(Keys::AdminAuthored));
        lemma_get_from_pairs(kvs, key_text(Keys::LimitedToCategory));
        lemma_lookup_is_last(kvs, key_text(Keys::LimitedToCategory));
    }
    let ghost e0 = value_entries(meta);
    let hash = extract_value(Keys::Hash, &mut meta)?;
    let ghost e1 = value_entries(meta);
    proof {
        lemma_remove_get(e0, key_text(Keys::Hash), key_text(Keys::Creator));
        lemma_remove_get(e0, key_text(Keys::Hash), key_text(Keys::AdminAuthored));
        lemma_remove_get(e0, key_text(Keys::Hash), key_text(Keys::LimitedToCategory));
    }
    let creator_id = extract_value(Keys::Creator, &mut meta)?;
    let ghost e2 = value_entries(meta);
    proof {
        lemma_remove_get(e1, key_text(Keys::Creator), key_text(Keys::AdminAuthored));
        lemma_remove_get(e1, key_text(Keys::Creator), key_text(Keys::LimitedToCategory));
    }
    let admin_text = extract_value(Keys::AdminAuthored, &mut meta)?;
    proof {
        lemma_remove_get(e2, key_text(Keys::AdminAuthored), key_text(Keys::LimitedToCategory));
    }
    let admin_authored = flag_from(admin_text.as_str(), "admin authored")?;
    let limited_text = match extract_value(Keys::LimitedToCategory, &mut meta) {
        Ok(v) => v,
        Err(_) => String::from_str("false"),
    };
    let limited_to_category = flag_from(limited_text.as_str(), "limited to category")?;
    let test = Test { id, creator_id, hash, category, admin_authored, limited_to_category };
    let detail = details_from_blocks(nodes)?;
    Ok((test, detail))
}

} // verus!

verus! {

/// A heading, followed by a code block with `value` where there is one.
pub open spec fn heading_value_spec(h: Seq<char>, depth: u8, value: Option<Seq<char>>) -> Seq<BlockView> {
    seq![BlockView::Heading { depth, text: h }] + match value {
        Some(x) => seq![BlockView::Code { value: x }],
        None => Seq::empty(),
    }
}

/// How one modifier is written: its name as a level-two heading, then its argument.
pub open spec fn modifier_blocks(m: ModifierView) -> Seq<BlockView> {
    heading_value_spec(modifier_name_spec(m), 2, modifier_arg_spec(m))
}

/// How a sequence of modifiers is written, one after the other.
pub open spec fn modifiers_blocks(ms: Seq<ModifierView>) -> Seq<BlockView>
    decreases ms.len(),
{
    if ms.len() == 0 {
        Seq::empty()
    } else {
        modifiers_blocks(ms.drop_last()) + modifier_blocks(ms.last())
    }
}

/// A modifier section: its level-one heading, then its modifiers.
pub open spec fn section_blocks(h: Seq<char>, ms: Seq<ModifierView>) -> Seq<BlockView> {
    heading_value_spec(h, 1, None) + modifiers_blocks(ms)
}

/// The meta section of a test.
pub open spec fn meta_blocks(t: TestView) -> Seq<BlockView> {
    heading_value_spec(key_text(Keys::Meta), 1, None) + heading_value_spec(
        key_text(Keys::LimitedToCategory),
        2,
        Some(bool_text(t.limited_to_category)),
    ) + heading_value_spec(key_text(Keys::Creator), 2, Some(t.creator_id)) + heading_value_spec(
        key_text(Keys::AdminAuthored),
        2,
        Some(bool_text(t.admin_authored)),
    ) + heading_value_spec(key_text(Keys::Hash), 2, Some(t.hash))
}

/// The blocks of the test file of a test.
pub open spec fn test_blocks(t: TestView, d: DetailView) -> Seq<BlockView> {
    section_blocks(key_text(Keys::CompilerModifiers), d.compiler_modifiers) + section_blocks(
        key_text(Keys::BinaryModifiers),
        d.binary_modifiers,
    ) + meta_blocks(t)
}

/// A heading, followed by a code block with `value` where there is one.
pub fn write_heading_value(heading: &str, depth: u8, value: Option<String>) -> (res: Vec<MdBlock>)
    ensures
        blocks_view(res@) == heading_value_spec(heading@, depth, opt_view(value)),
{
    let mut res: Vec<MdBlock> = Vec::new();
    res.push(MdBlock::Heading { depth, text: String::from_str(heading) });
    match value {
        Some(v) => {
            res.push(MdBlock::Code { value: v });
        },
        None => {},
    }
    assert(blocks_view(res@) =~= heading_value_spec(heading@, depth, opt_view(value)));
    res
}

fn append_blocks(dst: &mut Vec<MdBlock>, src: Vec<MdBlock>)
    ensures
        blocks_view(final(dst)@) == blocks_view(old(dst)@) + blocks_view(src@),
{
    let ghost d0 = blocks_view(dst@);
    let ghost s0 = blocks_view(src@);
    let mut src = src;
    dst.append(&mut src);
    assert(blocks_view(dst@) =~= d0 + s0);
}

} // verus!

verus! {

/// How one modifier is written.
pub fn modifier_to_markdown(modifier: &TestModifier) -> (res: Vec<MdBlock>)
    ensures
        blocks_view(res@) == modifier_blocks(modifier@),
{
    let name = modifier.name();
    let arg = modifier_arg_to_string(modifier);
    assert(opt_view(arg) == modifier_arg_spec(modifier@));
    write_heading_value(name.as_str(), 2, arg)
}

/// How a modifier section is written: its heading, then each modifier.
pub fn modifiers_to_markdown(heading: &str, modifiers: &Vec<TestModifier>) -> (res: Vec<MdBlock>)
    ensures
        blocks_view(res@) == section_blocks(heading@, modifiers_view(modifiers@)),
{
    let mut result = write_heading_value(heading, 1, None);
    let ghost ms = modifiers_view(modifiers@);
    let mut i: usize = 0;
    while i < modifiers.len()
        invariant
            i <= modifiers.len(),
            ms == modifiers_view(modifiers@),
            blocks_view(result@) == heading_value_spec(heading@, 1, None) + modifiers_blocks(ms.take(i as int)),
        decreases modifiers.len() - i,
    {
        assert(ms.take(i + 1).drop_last() =~= ms.take(i as int));
        assert(ms.take(i + 1).last() == modifiers@[i as int]@);
        let blocks = modifier_to_markdown(&modifiers[i]);
        append_blocks(&mut result, blocks);
        assert(blocks_view(result@) =~= heading_value_spec(heading@, 1, None) + modifiers_blocks(ms.take(i + 1)));
        i = i + 1;
    }
    assert(ms.take(i as int) =~= ms);
    result
}

/// The blocks of the test file of a test.
pub fn to_blocks(test: &Test, detail: &TestDetail) -> (res: Vec<MdBlock>)
    ensures
        blocks_view(res@) == test_blocks(test@, detail@),
{
    let mut root = modifiers_to_markdown(Keys::CompilerModifiers.text().as_str(), &detail.compiler_modifiers);
    append_blocks(&mut root, modifiers_to_markdown(Keys::BinaryModifiers.text().as_str(), &detail.binary_modifiers));
    append_blocks(&mut root, write_heading_value(Keys::Meta.text().as_str(), 1, None));
    append_blocks(
        &mut root,
        write_heading_value(
            Keys::LimitedToCategory.text().as_str(),
            2,
            Some(bool_to_string(test.limited_to_category)),
        ),
    );
    append_blocks(&mut root, write_heading_value(Keys::Creator.text().as_str(), 2, Some(test.creator_id.clone())));
    append_blocks(
        &mut root,
        write_heading_value(Keys::AdminAuthored.text().as_str(), 2, Some(bool_to_string(test.admin_authored))),
    );
    append_blocks(&mut root, write_heading_value(Keys::Hash.text().as_str(), 2, Some(test.hash.clone())));
    assert(blocks_view(root@) =~= test_blocks(test@, detail@));
    root
}

/// The top-level blocks of the markdown document `text`, as the `markdown` crate parses it.
pub uninterp spec fn parsed_markdown(text: Seq<char>) -> Seq<BlockView>;

/// The markdown text that the `mdast_util_to_markdown` crate writes for a document of these
/// blocks.
pub uninterp spec fn rendered_markdown(blocks: Seq<BlockView>) -> Seq<char>;

/// Parses `text` with `markdown::to_mdast` under the default options and converts each
/// top-level node: a heading to its depth and the text of its children, a code block to its
/// value, anything else to `Other`. The contract claims only that the result is a function of
/// the text. The crate documents that parsing without MDX never fails; on a failure the
/// result would be empty.
#[verifier::external_body]
fn markdown_blocks(text: &str) -> (res: Vec<MdBlock>)
    ensures
        blocks_view(res@) == parsed_markdown(text@),
{
    let root = markdown::to_mdast(text, &markdown::ParseOptions::default());
    let nodes = match root { Ok(n) => n.children().cloned().unwrap_or_default(), Err(_) => Vec::new() };
    nodes.iter().map(|n| match n {
        Node::Heading(h) => MdBlock::Heading { depth: h.depth, text: h.children.iter().map(|c| c.to_string()).collect() },
        Node::Code(c) => MdBlock::Code { value: c.value.clone() },
        _ => MdBlock::Other,
    }).collect()
}

/// Writes a document of these blocks with `mdast_util_to_markdown::to_markdown`: a heading
/// with one text child, a code block without language, an empty paragraph for `Other`. The
/// contract claims only that the text is a function of the blocks. The crate fails only on
/// nodes it does not know, which these are not; on a failure the text would be empty.
#[verifier::external_body]
fn render_markdown(blocks: &Vec<MdBlock>) -> (res: String)
    ensures
        res@ == rendered_markdown(blocks_view(blocks@)),
{
    let children = blocks.iter().map(|b| match b {
        MdBlock::Heading { depth, text } => Node::Heading(Heading { depth: *depth, children: vec![Node::Text(Text { value: text.clone(), position: None })], position: None }),
        MdBlock::Code { value } => Node::Code(Code { value: value.clone(), lang: None, meta: None, position: None }),
        MdBlock::Other => Node::Paragraph(Paragraph { children: vec![], position: None }),
    }).collect();
    mdast_util_to_markdown::to_markdown(&Node::Root(Root { children, position: None })).unwrap_or_default()
}

/// The test file of a test, as markdown.
pub fn to_markdown(test: &Test, detail: &TestDetail) -> (res: String)
    ensures
        res@ == rendered_markdown(test_blocks(test@, detail@)),
{
    let blocks = to_blocks(test, detail);
    render_markdown(&blocks)
}

/// The test `id` of `category` and its details, as the test file `text` describes them.
pub fn from_markdown(text: &str, category: String, id: String) -> (res: Result<(Test, TestDetail), FormatError>)
    ensures
        match from_blocks_spec(parsed_markdown(text@), category@, id@) {
            Ok((t, d)) => res matches Ok(x) && x.0@ == t && x.1@ == d,
            Err(e) => res matches Err(x) && x@ == e,
        },
{
    let blocks = markdown_blocks(text);
    from_blocks(&blocks, category, id)
}

/// The modifiers that the test file `text` describes.
pub fn details_from_markdown(text: &str) -> (res: Result<TestDetail, FormatError>)
    ensures
        match details_spec(parsed_markdown(text@)) {
            Ok(d) => res matches Ok(x) && x@ == d,
            Err(e) => res matches Err(x) && x@ == e,
        },
{
    let blocks = markdown_blocks(text);
    details_from_blocks(&blocks)
}

} // verus!

verus! {

proof fn lemma_fold_concat<A, B>(x: Seq<A>, y: Seq<A>, init: B, f: spec_fn(B, A) -> B)
    ensures
        (x + y).fold_left(init, f) == y.fold_left(x.fold_left(init, f), f),
{
    let s = x + y;
    s.lemma_fold_left_split(init, f, x.len() as int);
    assert(s.subrange(0, x.len() as int) =~= x);
    assert(s.subrange(x.len() as int, s.len() as int) =~= y);
}

/// Whether a block goes into the open section without closing it.
pub open spec fn is_body_block(b: BlockView) -> bool {
    (b matches BlockView::Heading { depth, .. } && depth == 2) || b is Code
}

proof fn lemma_assoc_body(st: AssocState, body: Seq<BlockView>)
    requires
        st.dup is None,
        forall|i: int| 0 <= i < body.len() ==> is_body_block(#[trigger] body[i]),
    ensures
        body.fold_left(st, assoc_fn()) == (AssocState { batch: st.batch + body, ..st }),
    decreases body.len(),
{
    if body.len() == 0 {
        assert(st.batch + body =~= st.batch);
    } else {
        let p = body.drop_last();
        assert forall|i: int| 0 <= i < p.len() implies is_body_block(#[trigger] p[i]) by {
            assert(p[i] == body[i]);
        }
        lemma_assoc_body(st, p);
        assert(is_body_block(body[body.len() - 1]));
        assert((st.batch + p).push(body.last()) =~= st.batch + body);
    }
}

proof fn lemma_key_facts()
    ensures
        trim_spec(key_text(Keys::CompilerModifiers)) == key_text(Keys::CompilerModifiers),
        trim_spec(key_text(Keys::BinaryModifiers)) == key_text(Keys::BinaryModifiers),
        trim_spec(key_text(Keys::Meta)) == key_text(Keys::Meta),
        trim_spec(key_text(Keys::Hash)) == key_text(Keys::Hash),
        trim_spec(key_text(Keys::Creator)) == key_text(Keys::Creator),
        trim_spec(key_text(Keys::AdminAuthored)) == key_text(Keys::AdminAuthored),
        trim_spec(key_text(Keys::LimitedToCategory)) == key_text(Keys::LimitedToCategory),
        key_text(Keys::CompilerModifiers) != key_text(Keys::BinaryModifiers),
        key_text(Keys::CompilerModifiers) != key_text(Keys::Meta),
        key_text(Keys::BinaryModifiers) != key_text(Keys::Meta),
        key_text(Keys::Hash) != key_text(Keys::Creator),
        key_text(Keys::Hash) != key_text(Keys::AdminAuthored),
        key_text(Keys::Hash) != key_text(Keys::LimitedToCategory),
        key_text(Keys::Creator) != key_text(Keys::AdminAuthored),
        key_text(Keys::Creator) != key_text(Keys::LimitedToCategory),
        key_text(Keys::AdminAuthored) != key_text(Keys::LimitedToCategory),
        "true"@ != "false"@,
{
    reveal_strlit("Executing your compiler");
    reveal_strlit("Executing the compiled binary");
    reveal_strlit("Meta");
    reveal_strlit("Hash");
    reveal_strlit("Creator");
    reveal_strlit("Admin Authored");
    reveal_strlit("Limited to Category");
    reveal_strlit("true");
    reveal_strlit("false");
    lemma_trim_plain(key_text(Keys::CompilerModifiers));
    lemma_trim_plain(key_text(Keys::BinaryModifiers));
    lemma_trim_plain(key_text(Keys::Meta));
    lemma_trim_plain(key_text(Keys::Hash));
    lemma_trim_plain(key_text(Keys::Creator));
    lemma_trim_plain(key_text(Keys::AdminAuthored));
    lemma_trim_plain(key_text(Keys::LimitedToCategory));
    assert(key_text(Keys::CompilerModifiers).len() != key_text(Keys::BinaryModifiers).len());
    assert(key_text(Keys::Hash)[0] != key_text(Keys::Creator)[0]);
    assert(key_text(Keys::Hash)[0] != key_text(Keys::AdminAuthored)[0]);
    assert(key_text(Keys::Hash)[0] != key_text(Keys::LimitedToCategory)[0]);
    assert(key_text(Keys::Creator)[0] != key_text(Keys::AdminAuthored)[0]);
    assert(key_text(Keys::Creator)[0] != key_text(Keys::LimitedToCategory)[0]);
    assert(key_text(Keys::AdminAuthored)[0] != key_text(Keys::LimitedToCategory)[0]);
    assert("true"@[0] != "false"@[0]);
}

} // verus!

verus! {

/// The pair under which a modifier is read back: its name and its argument.
pub open spec fn modifier_kv(m: ModifierView) -> KeyValueView {
    (modifier_name_spec(m), modifier_arg_spec(m))
}

proof fn lemma_reveal_names()
    ensures
        "ExitCode"@.len() == 8,
        "ExpectedOutput"@.len() == 14,
        "ProgramArgument"@.len() == 15,
        "ProgramArgumentFile"@.len() == 19,
        "ProgramInput"@.len() == 12,
        "ShouldCrash"@.len() == 11,
        "ShouldFail"@.len() == 10,
        "ShouldSucceed"@.len() == 13,
        "ShouldTimeout"@.len() == 13,
        "ShouldSucceed"@ != "ShouldTimeout"@,
        "Abort"@.len() == 5,
        "SegmentationFault"@.len() == 17,
        "FloatingPointException"@.len() == 22,
        "Parsing"@.len() == 7,
        "SemanticAnalysis"@.len() == 16,
{
    reveal_strlit("ExitCode");
    reveal_strlit("ExpectedOutput");
    reveal_strlit("ProgramArgument");
    reveal_strlit("ProgramArgumentFile");
    reveal_strlit("ProgramInput");
    reveal_strlit("ShouldCrash");
    reveal_strlit("ShouldFail");
    reveal_strlit("ShouldSucceed");
    reveal_strlit("ShouldTimeout");
    reveal_strlit("Abort");
    reveal_strlit("SegmentationFault");
    reveal_strlit("FloatingPointException");
    reveal_strlit("Parsing");
    reveal_strlit("SemanticAnalysis");
    assert("ShouldSucceed"@[6] != "ShouldTimeout"@[6]);
}

proof fn lemma_name_trimmed(m: ModifierView)
    ensures
        trim_spec(modifier_name_spec(m)) == modifier_name_spec(m),
{
    reveal_strlit("ExitCode");
    reveal_strlit("ExpectedOutput");
    reveal_strlit("ProgramArgument");
    reveal_strlit("ProgramArgumentFile");
    reveal_strlit("ProgramInput");
    reveal_strlit("ShouldCrash");
    reveal_strlit("ShouldFail");
    reveal_strlit("ShouldSucceed");
    reveal_strlit("ShouldTimeout");
    lemma_trim_plain(modifier_name_spec(m));
}

/// How each modifier heading reads, by its literal name: the headings of modifiers with an
/// argument read the code block after them as that argument (an exit code parsed as a number
/// up to 255) and are malformed without one; `ShouldSucceed` and `ShouldTimeout` read as
/// themselves whatever follows them.
pub proof fn lemma_modifier_headings(v: Seq<char>, o: Option<Seq<char>>)
    ensures
        modifier_from_spec("ExitCode"@, Some(v)) == match parse_unsigned_spec(v, 255) {
            Ok(c) => Ok(ModifierView::ExitCode { code: c as u8 }),
            Err(p) => Err::<ModifierView, Seq<char>>("Could not parse exit code: "@ + int_problem_text(p)),
        },
        modifier_from_spec("ExpectedOutput"@, Some(v)) == Ok::<ModifierView, Seq<char>>(ModifierView::ExpectedOutput { output: v }),
        modifier_from_spec("ProgramArgument"@, Some(v)) == Ok::<ModifierView, Seq<char>>(ModifierView::ProgramArgument { arg: v }),
        modifier_from_spec("ProgramArgumentFile"@, Some(v)) == Ok::<ModifierView, Seq<char>>(
            ModifierView::ProgramArgumentFile { contents: v },
        ),
        modifier_from_spec("ProgramInput"@, Some(v)) == Ok::<ModifierView, Seq<char>>(ModifierView::ProgramInput { input: v }),
        modifier_from_spec("ShouldCrash"@, Some(v)) == match signal_from_spec(v) {
            Some(sig) => Ok::<ModifierView, Seq<char>>(ModifierView::ShouldCrash { signal: sig }),
            None => Err(unknown_signal_msg(v)),
        },
        modifier_from_spec("ShouldFail"@, Some(v)) == match reason_from_spec(v) {
            Some(r) => Ok::<ModifierView, Seq<char>>(ModifierView::ShouldFail { reason: r }),
            None => Err(unknown_reason_msg(v)),
        },
        modifier_from_spec("ShouldSucceed"@, o) == Ok::<ModifierView, Seq<char>>(ModifierView::ShouldSucceed),
        modifier_from_spec("ShouldTimeout"@, o) == Ok::<ModifierView, Seq<char>>(ModifierView::ShouldTimeout),
        modifier_from_spec("ExitCode"@, None) is Err,
        modifier_from_spec("ExpectedOutput"@, None) is Err,
        modifier_from_spec("ProgramArgument"@, None) is Err,
        modifier_from_spec("ProgramArgumentFile"@, None) is Err,
        modifier_from_spec("ProgramInput"@, None) is Err,
        modifier_from_spec("ShouldCrash"@, None) is Err,
        modifier_from_spec("ShouldFail"@, None) is Err,
{
    reveal_strlit("ExitCode");
    reveal_strlit("ExpectedOutput");
    reveal_strlit("ProgramArgument");
    reveal_strlit("ProgramArgumentFile");
    reveal_strlit("ProgramInput");
    reveal_strlit("ShouldCrash");
    reveal_strlit("ShouldFail");
    reveal_strlit("ShouldSucceed");
    reveal_strlit("ShouldTimeout");
    assert("ShouldSucceed"@[6] != "ShouldTimeout"@[6]);
    assert("ExitCode"@.len() == 8);
    assert("ExpectedOutput"@.len() == 14);
    assert("ProgramArgument"@.len() == 15);
    assert("ProgramArgumentFile"@.len() == 19);
    assert("ProgramInput"@.len() == 12);
    assert("ShouldCrash"@.len() == 11);
    assert("ShouldFail"@.len() == 10);
    assert("ShouldSucceed"@.len() == 13);
    assert("ShouldTimeout"@.len() == 13);
}

/// Crash signals and fail reasons read and are written under their literal names.
pub proof fn lemma_signal_and_reason_names(v: Seq<char>, sig: CrashSignal, r: CompilerFailReason)
    ensures
        signal_from_spec(v) == Some(CrashSignal::Abort) <==> v == "Abort"@,
        signal_from_spec(v) == Some(CrashSignal::SegmentationFault) <==> v == "SegmentationFault"@,
        signal_from_spec(v) == Some(CrashSignal::FloatingPointException) <==> v == "FloatingPointException"@,
        reason_from_spec(v) == Some(CompilerFailReason::Parsing) <==> v == "Parsing"@,
        reason_from_spec(v) == Some(CompilerFailReason::SemanticAnalysis) <==> v == "SemanticAnalysis"@,
        signal_name(sig) == "Abort"@ <==> sig == CrashSignal::Abort,
        signal_name(sig) == "SegmentationFault"@ <==> sig == CrashSignal::SegmentationFault,
        signal_name(sig) == "FloatingPointException"@ <==> sig == CrashSignal::FloatingPointException,
        reason_name(r) == "Parsing"@ <==> r == CompilerFailReason::Parsing,
        reason_name(r) == "SemanticAnalysis"@ <==> r == CompilerFailReason::SemanticAnalysis,
{
    reveal_strlit("Abort");
    reveal_strlit("SegmentationFault");
    reveal_strlit("FloatingPointException");
    reveal_strlit("Parsing");
    reveal_strlit("SemanticAnalysis");
    assert("Abort"@.len() == 5);
    assert("SegmentationFault"@.len() == 17);
    assert("FloatingPointException"@.len() == 22);
    assert("Parsing"@.len() == 7);
    assert("SemanticAnalysis"@.len() == 16);
}

/// Each kind of modifier is written under its own literal name.
pub proof fn lemma_modifier_name_literals(m: ModifierView)
    ensures
        modifier_name_spec(m) == "ExitCode"@ <==> m is ExitCode,
        modifier_name_spec(m) == "ExpectedOutput"@ <==> m is ExpectedOutput,
        modifier_name_spec(m) == "ProgramArgument"@ <==> m is ProgramArgument,
        modifier_name_spec(m) == "ProgramArgumentFile"@ <==> m is ProgramArgumentFile,
        modifier_name_spec(m) == "ProgramInput"@ <==> m is ProgramInput,
        modifier_name_spec(m) == "ShouldCrash"@ <==> m is ShouldCrash,
        modifier_name_spec(m) == "ShouldFail"@ <==> m is ShouldFail,
        modifier_name_spec(m) == "ShouldSucceed"@ <==> m is ShouldSucceed,
        modifier_name_spec(m) == "ShouldTimeout"@ <==> m is ShouldTimeout,
{
    reveal_strlit("ExitCode");
    reveal_strlit("ExpectedOutput");
    reveal_strlit("ProgramArgument");
    reveal_strlit("ProgramArgumentFile");
    reveal_strlit("ProgramInput");
    reveal_strlit("ShouldCrash");
    reveal_strlit("ShouldFail");
    reveal_strlit("ShouldSucceed");
    reveal_strlit("ShouldTimeout");
    assert("ShouldSucceed"@[6] != "ShouldTimeout"@[6]);
    assert("ExitCode"@.len() == 8);
    assert("ExpectedOutput"@.len() == 14);
    assert("ProgramArgument"@.len() == 15);
    assert("ProgramArgumentFile"@.len() == 19);
    assert("ProgramInput"@.len() == 12);
    assert("ShouldCrash"@.len() == 11);
    assert("ShouldFail"@.len() == 10);
    assert("ShouldSucceed"@.len() == 13);
    assert("ShouldTimeout"@.len() == 13);
}

/// A modifier reads back from its name and its argument: `modifier_from_string` on what
/// `TestModifier::name` and `modifier_arg_to_string` give for a modifier returns that modifier,
/// and the modifier has an argument exactly when `modifier_requires_argument` says its name
/// needs one.
pub proof fn lemma_modifier_read_back(m: ModifierView)
    ensures
        requires_argument_spec(modifier_name_spec(m)) == modifier_arg_spec(m) is Some,
        modifier_from_spec(modifier_name_spec(m), modifier_arg_spec(m)) == Ok::<ModifierView, Seq<char>>(m),
{
    lemma_reveal_names();
    match m {
        ModifierView::ExitCode { code } => {
            lemma_parse_decimal_u8(code as nat);
        },
        _ => {},
    }
}

proof fn lemma_kv_modifiers(ms: Seq<ModifierView>)
    ensures
        modifiers_blocks(ms).fold_left(KvState { out: Seq::empty(), pending: None }, kv_fn(ValueRule::ModifierArguments))
            == (KvState { out: ms.map_values(|m: ModifierView| modifier_kv(m)), pending: None }),
    decreases ms.len(),
{
    let f = kv_fn(ValueRule::ModifierArguments);
    let init = KvState { out: Seq::empty(), pending: None };
    if ms.len() == 0 {
        assert(ms.map_values(|m: ModifierView| modifier_kv(m)) =~= Seq::<KeyValueView>::empty());
    } else {
        let p = ms.drop_last();
        let m = ms.last();
        lemma_kv_modifiers(p);
        lemma_fold_concat(modifiers_blocks(p), modifier_blocks(m), init, f);
        let st = KvState { out: p.map_values(|m: ModifierView| modifier_kv(m)), pending: None };
        lemma_name_trimmed(m);
        lemma_modifier_read_back(m);
        let b = modifier_blocks(m);
        reveal_with_fuel(Seq::fold_left, 3);
        match modifier_arg_spec(m) {
            Some(a) => {
                assert(b == seq![BlockView::Heading { depth: 2, text: modifier_name_spec(m) }, BlockView::Code { value: a }]);
                assert(b.drop_last() =~= seq![BlockView::Heading { depth: 2, text: modifier_name_spec(m) }]);
                assert(b.drop_last().drop_last() =~= Seq::<BlockView>::empty());
            },
            None => {
                assert(b =~= seq![BlockView::Heading { depth: 2, text: modifier_name_spec(m) }]);
                assert(b.drop_last() =~= Seq::<BlockView>::empty());
            },
        }
        assert(st.out.push(modifier_kv(m)) =~= ms.map_values(|m: ModifierView| modifier_kv(m)));
    }
}

proof fn lemma_read_modifiers(ms: Seq<ModifierView>)
    ensures
        modifiers_from_kvs(ms.map_values(|m: ModifierView| modifier_kv(m))) == Ok::<Seq<ModifierView>, Seq<char>>(ms),
    decreases ms.len(),
{
    if ms.len() > 0 {
        let p = ms.drop_last();
        lemma_read_modifiers(p);
        let k = ms.map_values(|m: ModifierView| modifier_kv(m));
        assert(k.drop_last() =~= p.map_values(|m: ModifierView| modifier_kv(m)));
        lemma_modifier_read_back(ms.last());
        assert(p.push(ms.last()) =~= ms);
    } else {
        assert(ms =~= Seq::<ModifierView>::empty());
    }
}

} // verus!

verus! {

proof fn lemma_modifier_blocks_body(ms: Seq<ModifierView>)
    ensures
        forall|i: int| 0 <= i < modifiers_blocks(ms).len() ==> is_body_block(#[trigger] modifiers_blocks(ms)[i]),
    decreases ms.len(),
{
    if ms.len() > 0 {
        lemma_modifier_blocks_body(ms.drop_last());
        let a = modifiers_blocks(ms.drop_last());
        let b = modifier_blocks(ms.last());
        assert forall|i: int| 0 <= i < modifiers_blocks(ms).len() implies is_body_block(
            #[trigger] modifiers_blocks(ms)[i],
        ) by {
            if i < a.len() {
                assert(modifiers_blocks(ms)[i] == a[i]);
            } else {
                assert(modifiers_blocks(ms)[i] == b[i - a.len()]);
            }
        }
    }
}

/// The blocks of the meta section after its heading.
pub open spec fn meta_body(t: TestView) -> Seq<BlockView> {
    heading_value_spec(key_text(Keys::LimitedToCategory), 2, Some(bool_text(t.limited_to_category)))
        + heading_value_spec(key_text(Keys::Creator), 2, Some(t.creator_id)) + heading_value_spec(
        key_text(Keys::AdminAuthored),
        2,
        Some(bool_text(t.admin_authored)),
    ) + heading_value_spec(key_text(Keys::Hash), 2, Some(t.hash))
}

proof fn lemma_sections_of_test(t: TestView, d: DetailView)
    ensures
        associate_spec(test_blocks(t, d)) == Ok::<Seq<SectionView>, Seq<char>>(
            seq![
                (key_text(Keys::CompilerModifiers), modifiers_blocks(d.compiler_modifiers)),
                (key_text(Keys::BinaryModifiers), modifiers_blocks(d.binary_modifiers)),
                (key_text(Keys::Meta), meta_body(t)),
            ],
        ),
{
    lemma_key_facts();
    let f = assoc_fn();
    let cm = d.compiler_modifiers;
    let bm = d.binary_modifiers;
    let h1 = seq![BlockView::Heading { depth: 1, text: key_text(Keys::CompilerModifiers) }];
    let h2 = seq![BlockView::Heading { depth: 1, text: key_text(Keys::BinaryModifiers) }];
    let h3 = seq![BlockView::Heading { depth: 1, text: key_text(Keys::Meta) }];
    let mb = meta_body(t);
    assert(heading_value_spec(key_text(Keys::CompilerModifiers), 1, None) =~= h1);
    assert(heading_value_spec(key_text(Keys::BinaryModifiers), 1, None) =~= h2);
    assert(heading_value_spec(key_text(Keys::Meta), 1, None) =~= h3);
    assert(test_blocks(t, d) =~= h1 + modifiers_blocks(cm) + h2 + modifiers_blocks(bm) + h3 + mb);
    let s0 = assoc_init();
    reveal_with_fuel(Seq::fold_left, 2);
    let s1 = h1.fold_left(s0, f);
    assert(h1.drop_last() =~= Seq::<BlockView>::empty());
    assert(s1 == AssocState { sections: Seq::empty(), current: Some(key_text(Keys::CompilerModifiers)), batch: Seq::empty(), dup: None });
    lemma_modifier_blocks_body(cm);
    lemma_assoc_body(s1, modifiers_blocks(cm));
    let s2 = modifiers_blocks(cm).fold_left(s1, f);
    assert(Seq::<BlockView>::empty() + modifiers_blocks(cm) =~= modifiers_blocks(cm));
    let secs1 = seq![(key_text(Keys::CompilerModifiers), modifiers_blocks(cm))];
    let s3 = h2.fold_left(s2, f);
    assert(h2.drop_last() =~= Seq::<BlockView>::empty());
    assert(closed_sections(s2) =~= secs1);
    assert(section_keys(secs1) =~= seq![key_text(Keys::CompilerModifiers)]);
    assert(s3 == AssocState { sections: secs1, current: Some(key_text(Keys::BinaryModifiers)), batch: Seq::empty(), dup: None });
    lemma_modifier_blocks_body(bm);
    lemma_assoc_body(s3, modifiers_blocks(bm));
    let s4 = modifiers_blocks(bm).fold_left(s3, f);
    assert(Seq::<BlockView>::empty() + modifiers_blocks(bm) =~= modifiers_blocks(bm));
    let secs2 = secs1.push((key_text(Keys::BinaryModifiers), modifiers_blocks(bm)));
    let s5 = h3.fold_left(s4, f);
    assert(h3.drop_last() =~= Seq::<BlockView>::empty());
    assert(section_keys(secs2) =~= seq![key_text(Keys::CompilerModifiers), key_text(Keys::BinaryModifiers)]);
    assert(s5 == AssocState { sections: secs2, current: Some(key_text(Keys::Meta)), batch: Seq::empty(), dup: None });
    assert forall|i: int| 0 <= i < mb.len() implies is_body_block(#[trigger] mb[i]) by {}
    lemma_assoc_body(s5, mb);
    let s6 = mb.fold_left(s5, f);
    assert(Seq::<BlockView>::empty() + mb =~= mb);
    lemma_fold_concat(h1, modifiers_blocks(cm), s0, f);
    lemma_fold_concat(h1 + modifiers_blocks(cm), h2, s0, f);
    lemma_fold_concat(h1 + modifiers_blocks(cm) + h2, modifiers_blocks(bm), s0, f);
    lemma_fold_concat(h1 + modifiers_blocks(cm) + h2 + modifiers_blocks(bm), h3, s0, f);
    lemma_fold_concat(h1 + modifiers_blocks(cm) + h2 + modifiers_blocks(bm) + h3, mb, s0, f);
    assert(closed_sections(s6) =~= seq![
        (key_text(Keys::CompilerModifiers), modifiers_blocks(cm)),
        (key_text(Keys::BinaryModifiers), modifiers_blocks(bm)),
        (key_text(Keys::Meta), mb),
    ]);
}

proof fn lemma_meta_values(t: TestView)
    ensures
        key_values_spec(ValueRule::AllKeys, meta_body(t)) == seq![
            (key_text(Keys::LimitedToCategory), Some(bool_text(t.limited_to_category))),
            (key_text(Keys::Creator), Some(t.creator_id)),
            (key_text(Keys::AdminAuthored), Some(bool_text(t.admin_authored))),
            (key_text(Keys::Hash), Some(t.hash)),
        ],
{
    lemma_key_facts();
    let f = kv_fn(ValueRule::AllKeys);
    let init = KvState { out: Seq::empty(), pending: None };
    let mb = meta_body(t);
    let b = seq![
        BlockView::Heading { depth: 2, text: key_text(Keys::LimitedToCategory) },
        BlockView::Code { value: bool_text(t.limited_to_category) },
        BlockView::Heading { depth: 2, text: key_text(Keys::Creator) },
        BlockView::Code { value: t.creator_id },
        BlockView::Heading { depth: 2, text: key_text(Keys::AdminAuthored) },
        BlockView::Code { value: bool_text(t.admin_authored) },
        BlockView::Heading { depth: 2, text: key_text(Keys::Hash) },
        BlockView::Code { value: t.hash },
    ];
    assert(mb =~= b);
    reveal_with_fuel(Seq::fold_left, 9);
    assert(b.drop_last().drop_last().drop_last().drop_last().drop_last().drop_last().drop_last().drop_last()
        =~= Seq::<BlockView>::empty());
    assert(b.fold_left(init, f).out =~= seq![
        (key_text(Keys::LimitedToCategory), Some(bool_text(t.limited_to_category))),
        (key_text(Keys::Creator), Some(t.creator_id)),
        (key_text(Keys::AdminAuthored), Some(bool_text(t.admin_authored))),
        (key_text(Keys::Hash), Some(t.hash)),
    ]);
}

/// Reading a test file back gives the test that was written, with the category and name that
/// it is filed under, and its modifiers: as blocks, what `to_markdown` writes is what
/// `from_markdown` and `details_from_markdown` read.
pub proof fn lemma_test_blocks_read_back(t: TestView, d: DetailView)
    ensures
        from_blocks_spec(test_blocks(t, d), t.category, t.id) == Ok::<(TestView, DetailView), FormatErrorView>((t, d)),
        details_spec(test_blocks(t, d)) == Ok::<DetailView, FormatErrorView>(d),
{
    lemma_key_facts();
    lemma_sections_of_test(t, d);
    let secs = seq![
        (key_text(Keys::CompilerModifiers), modifiers_blocks(d.compiler_modifiers)),
        (key_text(Keys::BinaryModifiers), modifiers_blocks(d.binary_modifiers)),
        (key_text(Keys::Meta), meta_body(t)),
    ];
    reveal_with_fuel(section_lookup, 4);
    assert(secs.drop_first() =~= seq![
        (key_text(Keys::BinaryModifiers), modifiers_blocks(d.binary_modifiers)),
        (key_text(Keys::Meta), meta_body(t)),
    ]);
    assert(secs.drop_first().drop_first() =~= seq![(key_text(Keys::Meta), meta_body(t))]);
    assert(section_lookup(secs, key_text(Keys::CompilerModifiers)) == Some(modifiers_blocks(d.compiler_modifiers)));
    assert(section_lookup(secs, key_text(Keys::BinaryModifiers)) == Some(modifiers_blocks(d.binary_modifiers)));
    assert(section_lookup(secs, key_text(Keys::Meta)) == Some(meta_body(t)));
    lemma_kv_modifiers(d.compiler_modifiers);
    lemma_kv_modifiers(d.binary_modifiers);
    lemma_read_modifiers(d.compiler_modifiers);
    lemma_read_modifiers(d.binary_modifiers);
    lemma_meta_values(t);
    let kvs = key_values_spec(ValueRule::AllKeys, meta_body(t));
    reveal_with_fuel(lookup_value, 5);
    assert(kvs.drop_last() =~= seq![
        (key_text(Keys::LimitedToCategory), Some(bool_text(t.limited_to_category))),
        (key_text(Keys::Creator), Some(t.creator_id)),
        (key_text(Keys::AdminAuthored), Some(bool_text(t.admin_authored))),
    ]);
    assert(kvs.drop_last().drop_last() =~= seq![
        (key_text(Keys::LimitedToCategory), Some(bool_text(t.limited_to_category))),
        (key_text(Keys::Creator), Some(t.creator_id)),
    ]);
    assert(kvs.drop_last().drop_last().drop_last() =~= seq![
        (key_text(Keys::LimitedToCategory), Some(bool_text(t.limited_to_category))),
    ]);
    assert(required_spec(kvs, Keys::Hash) == Ok::<Seq<char>, FormatErrorView>(t.hash));
    assert(required_spec(kvs, Keys::Creator) == Ok::<Seq<char>, FormatErrorView>(t.creator_id));
    assert(required_spec(kvs, Keys::AdminAuthored) == Ok::<Seq<char>, FormatErrorView>(bool_text(t.admin_authored)));
    assert(required_spec(kvs, Keys::LimitedToCategory) == Ok::<Seq<char>, FormatErrorView>(
        bool_text(t.limited_to_category),
    ));
}

} // verus!
