//! What the lines of the data build.
//!
//! Each line that holds a record gives the record's blocks to the table and
//! the organization's name to the interner. A line that cannot be read ends
//! the build in strict mode; otherwise it is skipped and reported to the
//! callback, if there is one. A block that already holds a record holds the
//! later one afterwards.

use crate::addr::{IpAddr, IpNetwork};
use crate::error::{
    parse_error_text, Error, ErrorModel, IoError, IoErrorKind, ParseErrorKind, ParseErrorModel,
    Warning, WarningModel,
};
use crate::interner::{interned, lemma_interned_place, StringInterner};
use crate::map::{names_cover, IpAsnMap};
use crate::parser::{lemma_parsed_line, parse_line, parse_line_spec, ParsedLineModel};
use crate::range::{cidr_cover, lemma_cover_exact, range_to_cidrs};
use crate::source::{
    find_line_end, gunzip_result, is_gzip, lemma_line_end, line_at, line_between, line_end,
    utf8_text,
};
use crate::table::{table_entries, table_insert_v4, table_insert_v6, table_new};
use crate::types::AsnRecord;
use ip_network_table::IpNetworkTable;
use vstd::prelude::*;
use vstd::string::StringExecFns;
use vstd::utf8::{decode_utf8, valid_utf8};

verus! {

/// What a build has gathered: the record stored under each block, and the
/// names of the organizations in the order in which they were first seen.
pub struct BuildState {
    pub entries: Map<IpNetwork, AsnRecord>,
    pub names: Seq<Seq<char>>,
}

/// A build that has read nothing.
pub open spec fn empty_state() -> BuildState {
    BuildState { entries: Map::empty(), names: Seq::empty() }
}

/// `entries` after `record` is stored under each of `blocks`, in their order.
pub open spec fn insert_blocks(
    entries: Map<IpNetwork, AsnRecord>,
    blocks: Seq<IpNetwork>,
    record: AsnRecord,
) -> Map<IpNetwork, AsnRecord>
    decreases blocks.len(),
{
    if blocks.len() == 0 {
        entries
    } else {
        insert_blocks(entries, blocks.drop_last(), record).insert(blocks.last(), record)
    }
}

/// What the error says when a build has no data to read.
pub open spec fn no_source_message() -> Seq<char> {
    "No data source provided"@
}

/// What the error says when gzip data does not unpack.
pub open spec fn not_gzip_message() -> Seq<char> {
    "invalid gzip data"@
}

/// What the error says when a line is no UTF-8 text.
pub open spec fn not_utf8_message() -> Seq<char> {
    "stream did not contain valid UTF-8"@
}

/// What the error says when the map can number no further organization.
pub open spec fn full_message() -> Seq<char> {
    "too many organizations"@
}

/// What a record does to a build: its organization is interned, and the record
/// is stored under each block of its range. A build that has numbered 2^32
/// organizations takes no further record.
pub open spec fn record_line(state: BuildState, line: ParsedLineModel) -> Result<
    BuildState,
    ErrorModel,
> {
    if state.names.len() > u32::MAX {
        Err(ErrorModel::Io { kind: IoErrorKind::OutOfMemory, message: full_message() })
    } else {
        let named = interned(state.names, line.organization);
        let record = AsnRecord {
            asn: line.asn,
            country_code: line.country_code,
            organization_idx: named.1 as u32,
        };
        Ok(
            BuildState {
                entries: insert_blocks(
                    state.entries,
                    cidr_cover(line.start_ip, line.end_ip),
                    record,
                ),
                names: named.0,
            },
        )
    }
}

/// Whether a line is passed over without being read: an empty line, or a
/// comment.
pub open spec fn is_skipped(text: Seq<char>) -> bool {
    text.len() == 0 || text[0] == '#'
}

/// What line `number`, of the bytes `raw`, does to a build.
///
/// Bytes that are no UTF-8 end the build. An empty line and a comment change
/// nothing. A record is taken in. A line that cannot be read ends the build in
/// strict mode and changes nothing otherwise.
pub open spec fn line_step(state: BuildState, strict: bool, number: int, raw: Seq<u8>) -> Result<
    BuildState,
    ErrorModel,
> {
    if !valid_utf8(raw) {
        Err(ErrorModel::Io { kind: IoErrorKind::InvalidData, message: not_utf8_message() })
    } else if is_skipped(decode_utf8(raw)) {
        Ok(state)
    } else {
        match parse_line_spec(decode_utf8(raw)) {
            Ok(line) => record_line(state, line),
            Err(kind) => if strict {
                Err(
                    ErrorModel::Parse {
                        line_number: number as usize,
                        line_content: decode_utf8(raw),
                        kind,
                    },
                )
            } else {
                Ok(state)
            },
        }
    }
}

/// The warning for a line that could not be read: a family mismatch has a
/// warning of its own, every other failure is told in words.
pub open spec fn warning_for(number: usize, text: Seq<char>, kind: ParseErrorModel) -> WarningModel {
    if kind is IpFamilyMismatch {
        WarningModel::IpFamilyMismatch { line_number: number, line_content: text }
    } else {
        WarningModel::Parse {
            line_number: number,
            line_content: text,
            message: parse_error_text(kind),
        }
    }
}

/// What the lines of `data` from the byte `from` on do to a build that has
/// read `done` lines before.
pub open spec fn ingest_from(
    data: Seq<u8>,
    from: int,
    done: int,
    state: BuildState,
    strict: bool,
) -> Result<BuildState, ErrorModel>
    decreases data.len() - from + 1,
    via ingest_from_decreases
{
    if from < 0 || from >= data.len() {
        Ok(state)
    } else {
        match line_step(state, strict, done + 1, line_at(data, from)) {
            Err(e) => Err(e),
            Ok(next) => ingest_from(data, line_end(data, from) + 1, done + 1, next, strict),
        }
    }
}

#[via_fn]
proof fn ingest_from_decreases(
    data: Seq<u8>,
    from: int,
    done: int,
    state: BuildState,
    strict: bool,
) {
    if 0 <= from < data.len() {
        lemma_line_end(data, from);
    }
}

/// The warning that line `number`, of the bytes `raw`, gives rise to: one for
/// a line that is text, is not passed over and cannot be read, in resilient
/// mode; none else.
pub open spec fn line_warning(strict: bool, number: int, raw: Seq<u8>) -> Option<WarningModel> {
    if !strict && valid_utf8(raw) && !is_skipped(decode_utf8(raw)) {
        match parse_line_spec(decode_utf8(raw)) {
            Ok(_) => None,
            Err(kind) => Some(warning_for(number as usize, decode_utf8(raw), kind)),
        }
    } else {
        None
    }
}

/// The warnings that the lines of `data` from the byte `from` on give rise
/// to, in their order, up to the line that ends the build.
pub open spec fn warnings_from(
    data: Seq<u8>,
    from: int,
    done: int,
    state: BuildState,
    strict: bool,
) -> Seq<WarningModel>
    decreases data.len() - from + 1,
    via warnings_from_decreases
{
    if from < 0 || from >= data.len() {
        Seq::empty()
    } else {
        match line_step(state, strict, done + 1, line_at(data, from)) {
            Err(e) => Seq::empty(),
            Ok(next) => {
                let rest = warnings_from(data, line_end(data, from) + 1, done + 1, next, strict);
                match line_warning(strict, done + 1, line_at(data, from)) {
                    Some(warning) => seq![warning] + rest,
                    None => rest,
                }
            },
        }
    }
}

#[via_fn]
proof fn warnings_from_decreases(
    data: Seq<u8>,
    from: int,
    done: int,
    state: BuildState,
    strict: bool,
) {
    if 0 <= from < data.len() {
        lemma_line_end(data, from);
    }
}

/// The warnings that a build from `data` gives rise to, in their order.
pub open spec fn warnings_spec(data: Seq<u8>, strict: bool) -> Seq<WarningModel> {
    warnings_from(data, 0, 0, empty_state(), strict)
}

/// Whether `callback`, if there is one, was called with `warnings`, one after
/// the other: there are warnings that read so, and each has been through a
/// call of the callback.
pub open spec fn delivered<F: Fn(Warning)>(callback: Option<F>, warnings: Seq<WarningModel>) -> bool {
    callback matches Some(f) ==> exists|sent: Seq<Warning>|
        sent.len() == warnings.len() && forall|i: int|
            0 <= i < sent.len() ==> (#[trigger] sent[i])@ == warnings[i] && call_ensures(
                f,
                (sent[i],),
                (),
            )
}

/// The warnings that a source gives rise to: those of its data, unpacked
/// where it is gzip data; none where there is no data to read.
pub open spec fn build_warnings(source: Option<Seq<u8>>, strict: bool) -> Seq<WarningModel> {
    match source {
        None => Seq::empty(),
        Some(data) => if is_gzip(data) {
            unpacked_warnings(gunzip_result(data), strict)
        } else {
            warnings_spec(data, strict)
        },
    }
}

/// The warnings that gzip data gives rise to, given what it unpacks to.
pub open spec fn unpacked_warnings(unpacked: Option<Seq<u8>>, strict: bool) -> Seq<WarningModel> {
    match unpacked {
        None => Seq::empty(),
        Some(data) => warnings_spec(data, strict),
    }
}

/// What the lines of `data` build: line by line from the first, numbered from
/// 1 on, up to the first line that ends the build.
pub open spec fn ingest_spec(data: Seq<u8>, strict: bool) -> Result<BuildState, ErrorModel> {
    ingest_from(data, 0, 0, empty_state(), strict)
}

/// What a source builds: nothing without a source; from gzip data, what the
/// unpacked data builds; else what the data builds as it is.
pub open spec fn build_spec(source: Option<Seq<u8>>, strict: bool) -> Result<
    BuildState,
    ErrorModel,
> {
    match source {
        None => Err(ErrorModel::Io { kind: IoErrorKind::NotFound, message: no_source_message() }),
        Some(data) => if is_gzip(data) {
            unpacked_spec(gunzip_result(data), strict)
        } else {
            ingest_spec(data, strict)
        },
    }
}

/// What gzip data builds, given what it unpacks to: nothing if it does not
/// unpack, else what the unpacked data builds.
pub open spec fn unpacked_spec(unpacked: Option<Seq<u8>>, strict: bool) -> Result<
    BuildState,
    ErrorModel,
> {
    match unpacked {
        None => Err(ErrorModel::Io { kind: IoErrorKind::InvalidData, message: not_gzip_message() }),
        Some(data) => ingest_spec(data, strict),
    }
}

/// Whether `built` is what `expected` asks for: the map of that state, or
/// that error.
pub open spec fn built_as(built: Result<IpAsnMap, Error>, expected: Result<
    BuildState,
    ErrorModel,
>) -> bool {
    match expected {
        Ok(state) => built matches Ok(map) && map.entries() == state.entries && map.names()
            == state.names,
        Err(e) => built matches Err(error) && error@ == e,
    }
}

/// Whether `callback`, if there is one, takes every warning.
pub open spec fn accepts_all<F: Fn(Warning)>(callback: Option<F>) -> bool {
    callback matches Some(f) ==> forall|w: Warning| call_requires(f, (w,))
}

/// Storing a record of a known organization under further blocks keeps every
/// record's organization known.
proof fn lemma_insert_blocks_cover(
    entries: Map<IpNetwork, AsnRecord>,
    blocks: Seq<IpNetwork>,
    record: AsnRecord,
    names: Seq<Seq<char>>,
)
    requires
        names_cover(entries, names),
        record.organization_idx < names.len(),
        forall|i: int| 0 <= i < blocks.len() ==> (#[trigger] blocks[i]).wf(),
    ensures
        names_cover(insert_blocks(entries, blocks, record), names),
    decreases blocks.len(),
{
    if blocks.len() > 0 {
        assert forall|i: int| 0 <= i < blocks.drop_last().len() implies (
        #[trigger] blocks.drop_last()[i]).wf() by {
            assert(blocks.drop_last()[i] == blocks[i]);
        }
        lemma_insert_blocks_cover(entries, blocks.drop_last(), record, names);
        assert(blocks.last() == blocks[blocks.len() - 1]);
    }
}

/// After a record is stored under blocks, each of the blocks holds it, and
/// every other block holds what it held.
pub proof fn lemma_insert_blocks_stores(
    entries: Map<IpNetwork, AsnRecord>,
    blocks: Seq<IpNetwork>,
    record: AsnRecord,
)
    ensures
        forall|i: int|
            0 <= i < blocks.len() ==> insert_blocks(entries, blocks, record).contains_key(
                #[trigger] blocks[i],
            ) && insert_blocks(entries, blocks, record)[blocks[i]] == record,
        forall|net: IpNetwork|
            !blocks.contains(net) ==> (#[trigger] insert_blocks(
                entries,
                blocks,
                record,
            ).contains_key(net) <==> entries.contains_key(net)) && (entries.contains_key(net)
                ==> insert_blocks(entries, blocks, record)[net] == entries[net]),
    decreases blocks.len(),
{
    if blocks.len() > 0 {
        let front = blocks.drop_last();
        lemma_insert_blocks_stores(entries, front, record);
        assert forall|i: int| 0 <= i < blocks.len() implies insert_blocks(
            entries,
            blocks,
            record,
        ).contains_key(#[trigger] blocks[i]) && insert_blocks(entries, blocks, record)[blocks[i]]
            == record by {
            if i < blocks.len() - 1 {
                assert(front[i] == blocks[i]);
            }
        }
        assert forall|net: IpNetwork| !blocks.contains(net) implies (#[trigger] insert_blocks(
            entries,
            blocks,
            record,
        ).contains_key(net) <==> entries.contains_key(net)) && (entries.contains_key(net)
            ==> insert_blocks(entries, blocks, record)[net] == entries[net]) by {
            if net == blocks.last() {
                assert(blocks[blocks.len() - 1] == net);
            }
            if front.contains(net) {
                let i = front.index_of(net);
                assert(front[i] == net);
                assert(blocks[i] == net);
            }
            let before = insert_blocks(entries, front, record);
            assert(before.contains_key(net) <==> entries.contains_key(net));
        }
    }
}

/// Once a record is taken in, each address of its range lies in a block of the
/// build that holds the record.
pub proof fn lemma_record_is_found(state: BuildState, line: ParsedLineModel, ip: IpAddr)
    requires
        line.start_ip.same_family(line.end_ip),
        !line.start_ip.after(line.end_ip),
        ip.within(line.start_ip, line.end_ip),
        record_line(state, line) is Ok,
    ensures
        exists|net: IpNetwork|
            {
                let next = record_line(state, line)->Ok_0;
                &&& next.entries.contains_key(net)
                &&& #[trigger] net.contains(ip)
                &&& next.entries[net].asn == line.asn
                &&& next.entries[net].country_code == line.country_code
                &&& next.names[next.entries[net].organization_idx as int] == line.organization
            },
{
    let blocks = cidr_cover(line.start_ip, line.end_ip);
    lemma_cover_exact(line.start_ip, line.end_ip);
    let i = choose|i: int| 0 <= i < blocks.len() && #[trigger] blocks[i].contains(ip);
    let named = interned(state.names, line.organization);
    let record = AsnRecord {
        asn: line.asn,
        country_code: line.country_code,
        organization_idx: named.1 as u32,
    };
    lemma_insert_blocks_stores(state.entries, blocks, record);
    if state.names.contains(line.organization) {
        let at = state.names.index_of(line.organization);
        assert(state.names[at] == line.organization);
    }
    assert(blocks[i].contains(ip));
}

/// Whether a build is sound: each block is well-formed, each record names an
/// organization of the list, and the list names none twice.
pub open spec fn sound(state: BuildState) -> bool {
    names_cover(state.entries, state.names) && state.names.no_duplicates()
}

/// A line keeps a sound build sound.
pub proof fn lemma_line_step_sound(state: BuildState, strict: bool, number: int, raw: Seq<u8>)
    requires
        sound(state),
    ensures
        line_step(state, strict, number, raw) matches Ok(next) ==> sound(next),
{
    if valid_utf8(raw) && !is_skipped(decode_utf8(raw)) {
        let text = decode_utf8(raw);
        if parse_line_spec(text) is Ok && state.names.len() <= u32::MAX {
            let line = parse_line_spec(text)->Ok_0;
            lemma_parsed_line(text);
            lemma_interned_place(state.names, line.organization);
            lemma_cover_exact(line.start_ip, line.end_ip);
            let named = interned(state.names, line.organization);
            let record = AsnRecord {
                asn: line.asn,
                country_code: line.country_code,
                organization_idx: named.1 as u32,
            };
            assert(names_cover(state.entries, named.0));
            lemma_insert_blocks_cover(
                state.entries,
                cidr_cover(line.start_ip, line.end_ip),
                record,
                named.0,
            );
        }
    }
}

/// The lines of the data keep a sound build sound.
pub proof fn lemma_ingest_from_sound(
    data: Seq<u8>,
    from: int,
    done: int,
    state: BuildState,
    strict: bool,
)
    requires
        sound(state),
    ensures
        ingest_from(data, from, done, state, strict) matches Ok(last) ==> sound(last),
    decreases data.len() - from + 1,
{
    if 0 <= from < data.len() {
        lemma_line_end(data, from);
        lemma_line_step_sound(state, strict, done + 1, line_at(data, from));
        match line_step(state, strict, done + 1, line_at(data, from)) {
            Ok(next) => {
                lemma_ingest_from_sound(data, line_end(data, from) + 1, done + 1, next, strict);
            },
            Err(_) => {},
        }
    }
}

/// What is built is sound: each block of the map is well-formed, and each
/// record names an organization of the map's list.
pub proof fn lemma_build_sound(source: Option<Seq<u8>>, strict: bool)
    ensures
        build_spec(source, strict) matches Ok(state) ==> sound(state),
{
    match source {
        Some(data) => {
            if is_gzip(data) {
                match gunzip_result(data) {
                    Some(unpacked) => lemma_ingest_from_sound(
                        unpacked,
                        0,
                        0,
                        empty_state(),
                        strict,
                    ),
                    None => {},
                }
            } else {
                lemma_ingest_from_sound(data, 0, 0, empty_state(), strict);
            }
        },
        None => {},
    }
}

/// Stores `record` under each of `blocks`.
fn insert_all(table: &mut IpNetworkTable<AsnRecord>, blocks: &Vec<IpNetwork>, record: AsnRecord)
    requires
        forall|i: int| 0 <= i < blocks@.len() ==> (#[trigger] blocks@[i]).wf(),
    ensures
        table_entries(*final(table)) == insert_blocks(table_entries(*old(table)), blocks@, record),
{
    let mut i: usize = 0;
    assert(blocks@.take(0) =~= Seq::<IpNetwork>::empty());
    while i < blocks.len()
        invariant
            0 <= i <= blocks@.len(),
            forall|k: int| 0 <= k < blocks@.len() ==> (#[trigger] blocks@[k]).wf(),
            table_entries(*table) == insert_blocks(
                table_entries(*old(table)),
                blocks@.take(i as int),
                record,
            ),
        decreases blocks@.len() - i,
    {
        let block = blocks[i];
        assert(blocks@.take(i + 1).drop_last() =~= blocks@.take(i as int));
        assert(blocks@.take(i + 1).last() == block);
        assert(block.wf());
        match block.network_address {
            IpAddr::V4(address) => table_insert_v4(table, address, block.netmask, record),
            IpAddr::V6(address) => table_insert_v6(table, address, block.netmask, record),
        }
        i += 1;
    }
    assert(blocks@.take(i as int) =~= blocks@);
}

/// The warning for line `number`, of the text `line`, which could not be read
/// for the reason `kind`.
pub fn warning_of(number: usize, line: &str, kind: &ParseErrorKind) -> (warning: Warning)
    ensures
        warning@ == warning_for(number, line@, kind@),
{
    match kind {
        ParseErrorKind::IpFamilyMismatch => Warning::IpFamilyMismatch {
            line_number: number,
            line_content: String::from_str(line),
        },
        _ => Warning::Parse {
            line_number: number,
            line_content: String::from_str(line),
            message: kind.to_string(),
        },
    }
}

/// An error that is not about one line's content.
pub(crate) fn io_error(kind: IoErrorKind, message: &str) -> (error: Error)
    ensures
        error@ == (ErrorModel::Io { kind, message: message@ }),
{
    Error::Io(IoError { kind, message: String::from_str(message) })
}

/// Warnings that each went through a call of the callback were delivered.
pub(crate) proof fn lemma_delivered<F: Fn(Warning)>(
    callback: Option<F>,
    sent: Seq<Warning>,
    warnings: Seq<WarningModel>,
)
    requires
        callback matches Some(f) ==> sent.map_values(|w: Warning| w@) =~= warnings && forall|
            i: int,
        | 0 <= i < sent.len() ==> call_ensures(f, (#[trigger] sent[i],), ()),
    ensures
        delivered(callback, warnings),
{
    if callback is Some {
        assert(sent.len() == warnings.len());
        assert forall|i: int| 0 <= i < sent.len() implies (#[trigger] sent[i])@ == warnings[i] by {
            assert(sent.map_values(|w: Warning| w@)[i] == sent[i]@);
        }
    }
}

/// Builds a map from the lines of `data`.
///
/// Lines end at a line feed, with or without a carriage return before it; the
/// last line needs none. Empty lines and lines that begin with `#` are passed
/// over. A line that cannot be read ends the build with its number, its text
/// and the reason in strict mode; otherwise it is skipped, and `on_warning`, if
/// there is one, is called with a warning for it.
pub fn ingest<F: Fn(Warning)>(data: &[u8], strict: bool, on_warning: &Option<F>) -> (built: Result<
    IpAsnMap,
    Error,
>)
    requires
        accepts_all(*on_warning),
    ensures
        built_as(built, ingest_spec(data@, strict)),
        delivered(*on_warning, warnings_spec(data@, strict)),
{
    let mut interner = StringInterner::new();
    let mut table = table_new();
    let len = data.len();
    let mut from: usize = 0;
    let mut done: usize = 0;
    let ghost mut sent: Seq<Warning> = Seq::empty();
    assert(sent.map_values(|w: Warning| w@) =~= Seq::<WarningModel>::empty());
    while from < len
        invariant
            len == data@.len(),
            0 <= done <= from <= len,
            interner.wf(),
            accepts_all(*on_warning),
            names_cover(table_entries(table), interner.names()),
            ingest_from(
                data@,
                from as int,
                done as int,
                BuildState { entries: table_entries(table), names: interner.names() },
                strict,
            ) == ingest_spec(data@, strict),
            *on_warning is Some ==> sent.map_values(|w: Warning| w@) + warnings_from(
                data@,
                from as int,
                done as int,
                BuildState { entries: table_entries(table), names: interner.names() },
                strict,
            ) == warnings_spec(data@, strict),
            *on_warning matches Some(f) ==> forall|i: int|
                0 <= i < sent.len() ==> call_ensures(f, (#[trigger] sent[i],), ()),
        decreases len - from,
    {
        let ghost state = BuildState { entries: table_entries(table), names: interner.names() };
        let ghost sent_before = sent;
        let end = find_line_end(data, from);
        let raw = line_between(data, from, end);
        let number = done + 1;
        let line = match utf8_text(raw) {
            Some(line) => line,
            None => {
                proof {
                    assert(sent.map_values(|w: Warning| w@) + Seq::<WarningModel>::empty()
                        =~= sent.map_values(|w: Warning| w@));
                    lemma_delivered(*on_warning, sent, warnings_spec(data@, strict));
                }
                return Err(
                    io_error(IoErrorKind::InvalidData, "stream did not contain valid UTF-8"),
                );
            },
        };
        if !(line.is_empty() || line.get_char(0) == '#') {
            match parse_line(line) {
                Ok(parsed) => {
                    proof {
                        lemma_parsed_line(line@);
                        interner.lemma_distinct();
                        lemma_interned_place(interner.names(), parsed.organization@);
                    }
                    if interner.len() > u32::MAX as usize {
                        proof {
                            assert(sent.map_values(|w: Warning| w@) + Seq::<
                                WarningModel,
                            >::empty() =~= sent.map_values(|w: Warning| w@));
                            lemma_delivered(*on_warning, sent, warnings_spec(data@, strict));
                        }
                        return Err(io_error(IoErrorKind::OutOfMemory, "too many organizations"));
                    }
                    let organization_idx = interner.get_or_intern(parsed.organization);
                    let record = AsnRecord {
                        asn: parsed.asn,
                        country_code: parsed.country_code,
                        organization_idx,
                    };
                    let blocks = range_to_cidrs(parsed.start_ip, parsed.end_ip);
                    proof {
                        lemma_insert_blocks_cover(
                            table_entries(table),
                            blocks@,
                            record,
                            interner.names(),
                        );
                    }
                    insert_all(&mut table, &blocks, record);
                    proof {
                        let line_model = parse_line_spec(line@)->Ok_0;
                        let named = interned(state.names, line_model.organization);
                        assert(named.1 == organization_idx as int);
                        assert(record == AsnRecord {
                            asn: line_model.asn,
                            country_code: line_model.country_code,
                            organization_idx: named.1 as u32,
                        });
                        assert(record_line(state, line_model) == Ok::<BuildState, ErrorModel>(
                            BuildState {
                                entries: table_entries(table),
                                names: interner.names(),
                            },
                        ));
                    }
                },
                Err(kind) => {
                    if strict {
                        proof {
                            assert(sent.map_values(|w: Warning| w@) + Seq::<
                                WarningModel,
                            >::empty() =~= sent.map_values(|w: Warning| w@));
                            lemma_delivered(*on_warning, sent, warnings_spec(data@, strict));
                        }
                        return Err(
                            Error::Parse {
                                line_number: number,
                                line_content: String::from_str(line),
                                kind,
                            },
                        );
                    }
                    if let Some(callback) = on_warning {
                        let warning = warning_of(number, line, &kind);
                        proof {
                            sent = sent.push(warning);
                            assert(sent.map_values(|w: Warning| w@) =~= sent_before.map_values(
                                |w: Warning| w@,
                            ).push(warning@));
                        }
                        callback(warning);
                    }
                },
            }
        }
        proof {
            let now = BuildState { entries: table_entries(table), names: interner.names() };
            assert(line_step(state, strict, number as int, raw@) == Ok::<BuildState, ErrorModel>(
                now,
            ));
            assert(ingest_from(data@, from as int, done as int, state, strict) == ingest_from(
                data@,
                end + 1,
                number as int,
                now,
                strict,
            ));
            let rest = warnings_from(data@, end + 1, number as int, now, strict);
            if end >= len {
                assert(ingest_from(data@, end + 1, number as int, now, strict) == ingest_from(
                    data@,
                    len as int,
                    number as int,
                    now,
                    strict,
                ));
                assert(rest == warnings_from(data@, len as int, number as int, now, strict));
            }
            if *on_warning is Some {
                let before = sent_before.map_values(|w: Warning| w@);
                match line_warning(strict, number as int, raw@) {
                    Some(warning) => {
                        assert(before + (seq![warning] + rest) =~= before.push(warning) + rest);
                    },
                    None => {},
                }
            }
        }
        done = number;
        if end < len {
            from = end + 1;
        } else {
            from = len;
        }
    }
    proof {
        assert(sent.map_values(|w: Warning| w@) + Seq::<WarningModel>::empty()
            =~= sent.map_values(|w: Warning| w@));
        lemma_delivered(*on_warning, sent, warnings_spec(data@, strict));
    }
    let organizations = interner.into_vec();
    Ok(IpAsnMap::from_parts(table, organizations))
}

/// What `build` makes of gzip data, given what the data unpacked to.
pub fn build_unpacked<F: Fn(Warning)>(
    unpacked: Option<Vec<u8>>,
    strict: bool,
    on_warning: &Option<F>,
) -> (built: Result<IpAsnMap, Error>)
    requires
        accepts_all(*on_warning),
    ensures
        built_as(
            built,
            unpacked_spec(
                match unpacked {
                    Some(bytes) => Some(bytes@),
                    None => None,
                },
                strict,
            ),
        ),
        delivered(
            *on_warning,
            unpacked_warnings(
                match unpacked {
                    Some(bytes) => Some(bytes@),
                    None => None,
                },
                strict,
            ),
        ),
{
    match unpacked {
        None => {
            proof {
                lemma_delivered(*on_warning, Seq::empty(), Seq::empty());
            }
            Err(io_error(IoErrorKind::InvalidData, "invalid gzip data"))
        },
        Some(bytes) => ingest(bytes.as_slice(), strict, on_warning),
    }
}

} // verus!
