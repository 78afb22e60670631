//! Reads one line of the data.
//!
//! A line has five columns between tabs: the first and the last address of a
//! range, the number of the autonomous system, a country code and the name of
//! the organization.

use crate::addr::IpAddr;
use crate::error::{ParseErrorKind, ParseErrorModel};
use crate::literal::{ip_literal, read_ip};
use crate::text::{
    lemma_sep_positions, piece_bounds, read_u32, separators, split, to_chars, u32_literal,
};
use vstd::prelude::*;
use vstd::slice::slice_subrange;
use vstd::string::StringExecFns;

verus! {

/// The number of columns of a line.
pub const EXPECTED_COLUMNS: usize = 5;

/// The columns of a line that was read.
#[derive(Debug, PartialEq, Eq)]
pub struct ParsedLine<'a> {
    /// The first address of the range.
    pub start_ip: IpAddr,
    /// The last address of the range, of the same family and not before the
    /// first.
    pub end_ip: IpAddr,
    /// The number of the autonomous system.
    pub asn: u32,
    /// The two bytes of the country code.
    pub country_code: [u8; 2],
    /// The name of the organization: the line's last column.
    pub organization: &'a str,
}

/// A `ParsedLine` with its name as a sequence of characters.
pub struct ParsedLineModel {
    pub start_ip: IpAddr,
    pub end_ip: IpAddr,
    pub asn: u32,
    pub country_code: [u8; 2],
    pub organization: Seq<char>,
}

impl<'a> View for ParsedLine<'a> {
    type V = ParsedLineModel;

    open spec fn view(&self) -> ParsedLineModel {
        ParsedLineModel {
            start_ip: self.start_ip,
            end_ip: self.end_ip,
            asn: self.asn,
            country_code: self.country_code,
            organization: self.organization@,
        }
    }
}

/// The country code of records whose country is not known.
pub open spec fn unknown_country() -> [u8; 2] {
    [0x5au8, 0x5au8]
}

/// The two bytes that the country column `s` stands for: those of its two
/// ASCII characters, or the code of an unknown country for `None`, `Unknown`
/// and the empty column.
pub open spec fn country_code_of(s: Seq<char>) -> Option<[u8; 2]> {
    if s.len() == 0 || s == seq!['N', 'o', 'n', 'e'] || s == seq![
        'U',
        'n',
        'k',
        'n',
        'o',
        'w',
        'n',
    ] {
        Some(unknown_country())
    } else if s.len() == 2 && (s[0] as u32) < 128 && (s[1] as u32) < 128 {
        Some([(s[0] as u32) as u8, (s[1] as u32) as u8])
    } else {
        None
    }
}

/// The number of pieces that the tabs cut `line` into, as far as a `usize`
/// can tell it.
pub open spec fn column_count(line: Seq<char>) -> usize {
    if split(line, '\t').len() > usize::MAX {
        usize::MAX
    } else {
        split(line, '\t').len() as usize
    }
}

/// What an address column, a number column and a country column make of a line
/// with five columns, once each is read: the checks follow one another in this
/// order, and the first that fails names the error.
pub open spec fn assemble_spec(
    columns: Seq<Seq<char>>,
    start: Option<IpAddr>,
    end: Option<IpAddr>,
    asn: Option<u32>,
) -> Result<ParsedLineModel, ParseErrorModel> {
    if start is None {
        Err(
            ParseErrorModel::InvalidIpAddress {
                field: seq!['s', 't', 'a', 'r', 't', '_', 'i', 'p'],
                value: columns[0],
            },
        )
    } else if end is None {
        Err(
            ParseErrorModel::InvalidIpAddress {
                field: seq!['e', 'n', 'd', '_', 'i', 'p'],
                value: columns[1],
            },
        )
    } else if asn is None {
        Err(ParseErrorModel::InvalidAsnNumber { value: columns[2] })
    } else if !start->0.same_family(end->0) {
        Err(ParseErrorModel::IpFamilyMismatch)
    } else if start->0.after(end->0) {
        Err(ParseErrorModel::InvalidRange { start_ip: start->0, end_ip: end->0 })
    } else {
        match country_code_of(columns[3]) {
            None => Err(ParseErrorModel::InvalidCountryCode { value: columns[3] }),
            Some(code) => Ok(
                ParsedLineModel {
                    start_ip: start->0,
                    end_ip: end->0,
                    asn: asn->0,
                    country_code: code,
                    organization: columns[4],
                },
            ),
        }
    }
}

/// What `line` holds: its columns, or the first thing that is wrong with it.
#[verifier::opaque]
pub open spec fn parse_line_spec(line: Seq<char>) -> Result<ParsedLineModel, ParseErrorModel> {
    let columns = split(line, '\t');
    if columns.len() != 5 {
        Err(ParseErrorModel::IncorrectColumnCount { expected: 5, found: column_count(line) })
    } else {
        assemble_spec(
            columns,
            ip_literal(columns[0]),
            ip_literal(columns[1]),
            u32_literal(columns[2]),
        )
    }
}

/// The result of reading a line, with its strings as sequences of characters.
pub open spec fn outcome(parsed: Result<ParsedLine<'_>, ParseErrorKind>) -> Result<
    ParsedLineModel,
    ParseErrorModel,
> {
    match parsed {
        Ok(line) => Ok(line@),
        Err(kind) => Err(kind@),
    }
}

/// A line that is read holds a range that runs forward within one family, and
/// a country code of two ASCII bytes.
pub proof fn lemma_parsed_line(line: Seq<char>)
    requires
        parse_line_spec(line) is Ok,
    ensures
        parse_line_spec(line)->Ok_0.start_ip.same_family(parse_line_spec(line)->Ok_0.end_ip),
        !parse_line_spec(line)->Ok_0.start_ip.after(parse_line_spec(line)->Ok_0.end_ip),
        parse_line_spec(line)->Ok_0.country_code@.len() == 2,
        parse_line_spec(line)->Ok_0.country_code@[0] < 128,
        parse_line_spec(line)->Ok_0.country_code@[1] < 128,
{
    reveal(parse_line_spec);
}

/// The two bytes of a country column.
fn read_country_code(column: &[char]) -> (code: Option<[u8; 2]>)
    ensures
        code == country_code_of(column@),
{
    let len = column.len();
    let unknown: [u8; 2] = [0x5a, 0x5a];
    if len == 0 {
        return Some(unknown);
    }
    if len == 4 && column[0] == 'N' && column[1] == 'o' && column[2] == 'n' && column[3] == 'e' {
        assert(column@ =~= seq!['N', 'o', 'n', 'e']);
        return Some(unknown);
    }
    if len == 7 && column[0] == 'U' && column[1] == 'n' && column[2] == 'k' && column[3] == 'n'
        && column[4] == 'o' && column[5] == 'w' && column[6] == 'n' {
        assert(column@ =~= seq!['U', 'n', 'k', 'n', 'o', 'w', 'n']);
        return Some(unknown);
    }
    assert(column@ != seq!['N', 'o', 'n', 'e']) by {
        if column@ == seq!['N', 'o', 'n', 'e'] {
            assert(column@.len() == 4);
            assert(column@[0] == 'N' && column@[1] == 'o' && column@[2] == 'n' && column@[3]
                == 'e');
        }
    }
    assert(column@ != seq!['U', 'n', 'k', 'n', 'o', 'w', 'n']) by {
        let word = seq!['U', 'n', 'k', 'n', 'o', 'w', 'n'];
        if column@ == word {
            assert(column@.len() == 7);
            assert(column@[0] == word[0] && column@[1] == word[1] && column@[2] == word[2]
                && column@[3] == word[3] && column@[4] == word[4] && column@[5] == word[5]
                && column@[6] == word[6]);
        }
    }
    if len == 2 && (column[0] as u32) < 128 && (column[1] as u32) < 128 {
        let code: [u8; 2] = [(column[0] as u32) as u8, (column[1] as u32) as u8];
        return Some(code);
    }
    None
}

/// Reads one line of five columns between tabs: the two ends of a range, the
/// number of the autonomous system, the country code and the organization.
///
/// The line is refused with the first of these that holds: it has not five
/// columns; its first or its second column spells no IP address; its third
/// spells no unsigned 32-bit number; the two addresses are of different
/// families; the first lies behind the second; the country code is none.
pub fn parse_line(line: &str) -> (parsed: Result<ParsedLine<'_>, ParseErrorKind>)
    ensures
        outcome(parsed) == parse_line_spec(line@),
{
    proof {
        reveal(parse_line_spec);
    }
    let chars = to_chars(line);
    let text = chars.as_slice();
    let tabs = separators(text, '\t');
    proof {
        lemma_sep_positions(line@, '\t');
    }
    if tabs.len() != EXPECTED_COLUMNS - 1 {
        let found = if tabs.len() == usize::MAX {
            usize::MAX
        } else {
            tabs.len() + 1
        };
        return Err(ParseErrorKind::IncorrectColumnCount { expected: EXPECTED_COLUMNS, found });
    }
    let (start_from, start_to) = piece_bounds(text, '\t', &tabs, 0);
    let (end_from, end_to) = piece_bounds(text, '\t', &tabs, 1);
    let (asn_from, asn_to) = piece_bounds(text, '\t', &tabs, 2);
    let (country_from, country_to) = piece_bounds(text, '\t', &tabs, 3);
    let (name_from, name_to) = piece_bounds(text, '\t', &tabs, 4);
    let ghost columns = split(line@, '\t');

    let start = read_ip(slice_subrange(text, start_from, start_to));
    let end = read_ip(slice_subrange(text, end_from, end_to));
    let asn = read_u32(slice_subrange(text, asn_from, asn_to));
    let start_ip = match start {
        Some(ip) => ip,
        None => {
            let field = String::from_str("start_ip");
            proof {
                reveal_strlit("start_ip");
                assert(field@ =~= seq!['s', 't', 'a', 'r', 't', '_', 'i', 'p']);
            }
            return Err(
                ParseErrorKind::InvalidIpAddress {
                    field,
                    value: String::from_str(line.substring_char(start_from, start_to)),
                },
            );
        },
    };
    let end_ip = match end {
        Some(ip) => ip,
        None => {
            let field = String::from_str("end_ip");
            proof {
                reveal_strlit("end_ip");
                assert(field@ =~= seq!['e', 'n', 'd', '_', 'i', 'p']);
            }
            return Err(
                ParseErrorKind::InvalidIpAddress {
                    field,
                    value: String::from_str(line.substring_char(end_from, end_to)),
                },
            );
        },
    };
    let asn = match asn {
        Some(n) => n,
        None => {
            return Err(
                ParseErrorKind::InvalidAsnNumber {
                    value: String::from_str(line.substring_char(asn_from, asn_to)),
                },
            );
        },
    };
    if start_ip.is_ipv4() != end_ip.is_ipv4() {
        return Err(ParseErrorKind::IpFamilyMismatch);
    }
    if start_ip.is_after(&end_ip) {
        return Err(ParseErrorKind::InvalidRange { start_ip, end_ip });
    }
    let country_code = match read_country_code(slice_subrange(text, country_from, country_to)) {
        Some(code) => code,
        None => {
            return Err(
                ParseErrorKind::InvalidCountryCode {
                    value: String::from_str(line.substring_char(country_from, country_to)),
                },
            );
        },
    };
    Ok(
        ParsedLine {
            start_ip,
            end_ip,
            asn,
            country_code,
            organization: line.substring_char(name_from, name_to),
        },
    )
}

} // verus!
