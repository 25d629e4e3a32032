//! The Block Store: an unordered collection of (address-block, country)
//! entries loaded from many per-country files of address-block literals,
//! queried by a linear first-match containment scan.

use vstd::prelude::*;
use vstd::string::*;

use crate::errors::BuildError;
use crate::ipv4_value_spec;
use crate::text::{
    find_char, find_char_from, parse_u32, parse_u32_spec, upper_seq, upper_string,
};

verus! {

/// The mathematical shape of an address-block literal: a network address
/// and a prefix length in [0, 32].
pub ghost struct BlockLit {
    pub network: u32,
    pub prefix: u8,
}

/// The mathematical shape of one loaded entry.
pub ghost struct BlockV {
    pub network: u32,
    pub prefix: u8,
    pub country: Seq<char>,
}

/// One loaded entry: an address block and the country it belongs to.
#[derive(Debug)]
pub struct CidrBlock {
    network: u32,
    prefix: u8,
    country: String,
}

impl View for CidrBlock {
    type V = BlockV;

    closed spec fn view(&self) -> BlockV {
        BlockV { network: self.network, prefix: self.prefix, country: self.country@ }
    }
}

impl DeepView for CidrBlock {
    type V = BlockV;

    closed spec fn deep_view(&self) -> BlockV {
        self.view()
    }
}

/// One input file: its name and its lines, in encounter order.
#[derive(Debug)]
pub struct SourceFile {
    pub name: String,
    pub lines: Vec<String>,
}

/// The mathematical shape of one input file.
pub ghost struct FileV {
    pub name: Seq<char>,
    pub lines: Seq<Seq<char>>,
}

impl View for SourceFile {
    type V = FileV;

    open spec fn view(&self) -> FileV {
        FileV { name: self.name@, lines: self.lines.deep_view() }
    }
}

impl DeepView for SourceFile {
    type V = FileV;

    open spec fn deep_view(&self) -> FileV {
        self.view()
    }
}

/// The mask with the prefix's leading bits set.
pub open spec fn mask_spec(prefix: u8) -> u32 {
    if prefix == 0 {
        0u32
    } else {
        0xFFFF_FFFFu32 << ((32 - prefix) as u32)
    }
}

/// The containment test: the address and the network address agree on
/// every bit the mask keeps.
pub open spec fn block_covers(b: BlockV, ip: u32) -> bool {
    ip & mask_spec(b.prefix) == b.network & mask_spec(b.prefix)
}

/// Computes the mask with the prefix's leading bits set.
pub fn prefix_mask(prefix: u8) -> (r: u32)
    requires
        prefix <= 32,
    ensures
        r == mask_spec(prefix),
{
    if prefix == 0 {
        0
    } else {
        0xFFFF_FFFFu32 << ((32 - prefix) as u32)
    }
}

/// What an address-block literal denotes: four dot-separated decimal
/// octets in [0, 255], a slash, and a decimal prefix length in [0, 32].
/// Any other text denotes nothing.
pub open spec fn parse_block_spec(s: Seq<char>) -> Option<BlockLit> {
    let i1 = find_char_from(s, '.', 0);
    let i2 = find_char_from(s, '.', i1 + 1);
    let i3 = find_char_from(s, '.', i2 + 1);
    let i4 = find_char_from(s, '/', i3 + 1);
    if i1 < 0 || i2 < 0 || i3 < 0 || i4 < 0 {
        None
    } else {
        let a = parse_u32_spec(s.subrange(0, i1));
        let b = parse_u32_spec(s.subrange(i1 + 1, i2));
        let c = parse_u32_spec(s.subrange(i2 + 1, i3));
        let d = parse_u32_spec(s.subrange(i3 + 1, i4));
        let p = parse_u32_spec(s.subrange(i4 + 1, s.len() as int));
        if a is Some && a.unwrap() <= 255 && b is Some && b.unwrap() <= 255 && c is Some
            && c.unwrap() <= 255 && d is Some && d.unwrap() <= 255 && p is Some && p.unwrap()
            <= 32 {
            Some(
                BlockLit {
                    network: ipv4_value_spec(
                        a.unwrap() as u8,
                        b.unwrap() as u8,
                        c.unwrap() as u8,
                        d.unwrap() as u8,
                    ),
                    prefix: p.unwrap() as u8,
                },
            )
        } else {
            None
        }
    }
}

/// Reads one address-block literal.
pub fn parse_block(line: &str) -> (r: Option<(u32, u8)>)
    ensures
        match r {
            Some(t) => parse_block_spec(line@) == Some(BlockLit { network: t.0, prefix: t.1 })
                && t.1 <= 32,
            None => parse_block_spec(line@) is None,
        },
{
    let n = line.unicode_len();
    let i1 = match find_char(line, 0, '.') {
        Some(i) => i,
        None => {
            return None;
        },
    };
    let i2 = match find_char(line, i1 + 1, '.') {
        Some(i) => i,
        None => {
            return None;
        },
    };
    let i3 = match find_char(line, i2 + 1, '.') {
        Some(i) => i,
        None => {
            return None;
        },
    };
    let i4 = match find_char(line, i3 + 1, '/') {
        Some(i) => i,
        None => {
            return None;
        },
    };
    let a = match parse_u32(line.substring_char(0, i1)) {
        Some(v) => v,
        None => {
            return None;
        },
    };
    let b = match parse_u32(line.substring_char(i1 + 1, i2)) {
        Some(v) => v,
        None => {
            return None;
        },
    };
    let c = match parse_u32(line.substring_char(i2 + 1, i3)) {
        Some(v) => v,
        None => {
            return None;
        },
    };
    let d = match parse_u32(line.substring_char(i3 + 1, i4)) {
        Some(v) => v,
        None => {
            return None;
        },
    };
    let p = match parse_u32(line.substring_char(i4 + 1, n)) {
        Some(v) => v,
        None => {
            return None;
        },
    };
    if a <= 255 && b <= 255 && c <= 255 && d <= 255 && p <= 32 {
        let network = crate::ipv4_value(a as u8, b as u8, c as u8, d as u8);
        Some((network, p as u8))
    } else {
        None
    }
}

/// The country code a file name carries: the text before the first dot
/// (the whole name if there is none), normalized to uppercase.
pub open spec fn country_of_name(name: Seq<char>) -> Seq<char> {
    let i = find_char_from(name, '.', 0);
    if i < 0 {
        upper_seq(name)
    } else {
        upper_seq(name.subrange(0, i))
    }
}

/// The fail-fast fold over one file's lines: every line must be a
/// well-formed address-block literal, and each becomes one entry, in
/// line-encounter order, all under the file's country.
pub open spec fn file_blocks_from(
    lines: Seq<Seq<char>>,
    j: int,
    country: Seq<char>,
    acc: Seq<BlockV>,
) -> Option<Seq<BlockV>>
    decreases lines.len() - j,
{
    if j < 0 || j >= lines.len() {
        Some(acc)
    } else {
        match parse_block_spec(lines[j]) {
            None => None,
            Some(b) => file_blocks_from(
                lines,
                j + 1,
                country,
                acc.push(BlockV { network: b.network, prefix: b.prefix, country }),
            ),
        }
    }
}

/// The fail-fast fold that builds the block list: for each file, in
/// order, the file name must carry a two-character country code, and
/// every line must parse; entries accumulate in file- and line-encounter
/// order.
pub open spec fn build_blocks_from(files: Seq<FileV>, i: int, acc: Seq<BlockV>) -> Result<
    Seq<BlockV>,
    BuildError,
>
    decreases files.len() - i,
{
    if i < 0 || i >= files.len() {
        Ok(acc)
    } else {
        let c = country_of_name(files[i].name);
        if c.len() != 2 {
            Err(BuildError::Validation)
        } else {
            match file_blocks_from(files[i].lines, 0, c, acc) {
                None => Err(BuildError::Parse),
                Some(acc2) => build_blocks_from(files, i + 1, acc2),
            }
        }
    }
}

/// What constructing from a file sequence denotes.
pub open spec fn build_blocks_spec(files: Seq<FileV>) -> Result<Seq<BlockV>, BuildError> {
    build_blocks_from(files, 0, Seq::empty())
}

/// What a query on a block list denotes: the country of the first block,
/// in store order, whose containment test matches.
pub open spec fn scan_from(bs: Seq<BlockV>, i: int, ip: u32) -> Option<Seq<char>>
    decreases bs.len() - i,
{
    if i < 0 || i >= bs.len() {
        None
    } else if block_covers(bs[i], ip) {
        Some(bs[i].country)
    } else {
        scan_from(bs, i + 1, ip)
    }
}

/// What a query on a block list denotes, from the first entry on.
pub open spec fn scan_spec(bs: Seq<BlockV>, ip: u32) -> Option<Seq<char>> {
    scan_from(bs, 0, ip)
}

/// A scan yields nothing exactly when no block at or after `i` matches.
pub proof fn lemma_scan_none(bs: Seq<BlockV>, i: int, ip: u32)
    requires
        0 <= i <= bs.len(),
    ensures
        scan_from(bs, i, ip) is None <==> forall|j: int|
            i <= j < bs.len() ==> !block_covers(#[trigger] bs[j], ip),
    decreases bs.len() - i,
{
    if i < bs.len() {
        lemma_scan_none(bs, i + 1, ip);
    }
}

/// Every stored entry has a prefix length in [0, 32].
pub open spec fn blocks_wf(bs: Seq<BlockV>) -> bool {
    forall|i: int| 0 <= i < bs.len() ==> (#[trigger] bs[i]).prefix <= 32
}

/// The Block Store.
#[derive(Debug)]
pub struct HerrbischoffProvider {
    cidr_blocks: Vec<CidrBlock>,
}

impl View for HerrbischoffProvider {
    type V = Seq<BlockV>;

    closed spec fn view(&self) -> Seq<BlockV> {
        self.cidr_blocks.deep_view()
    }
}

impl HerrbischoffProvider {
    #[verifier::type_invariant]
    spec fn inv(self) -> bool {
        blocks_wf(self@)
    }

    /// Builds the store from the given files, in the given order, failing
    /// fast on the first malformed file name or line. A successful build
    /// retains one entry per line, in file- and line-encounter order.
    pub fn from_repo(files: &Vec<SourceFile>) -> (r: Result<HerrbischoffProvider, BuildError>)
        ensures
            match r {
                Ok(p) => build_blocks_spec(files.deep_view()) == Ok::<Seq<BlockV>, BuildError>(
                    p@,
                ) && blocks_wf(p@),
                Err(e) => build_blocks_spec(files.deep_view()) == Err::<Seq<BlockV>, BuildError>(
                    e,
                ),
            },
    {
        let ghost fv = files.deep_view();
        let mut blocks: Vec<CidrBlock> = Vec::new();
        let mut i: usize = 0;
        proof {
            assert(blocks.deep_view() =~= Seq::<BlockV>::empty());
        }
        while i < files.len()
            invariant
                i <= files.len(),
                fv == files.deep_view(),
                fv.len() == files.len(),
                blocks_wf(blocks.deep_view()),
                build_blocks_spec(fv) == build_blocks_from(fv, i as int, blocks.deep_view()),
            decreases files.len() - i,
        {
            proof {
                assert(fv[i as int] == files[i as int]@);
            }
            let file = &files[i];
            let name = file.name.as_str();
            let stem_end = match find_char(name, 0, '.') {
                Some(d) => d,
                None => name.unicode_len(),
            };
            let country = upper_string(name.substring_char(0, stem_end));
            proof {
                if find_char_from(name@, '.', 0) < 0 {
                    assert(name@.subrange(0, name@.len() as int) =~= name@);
                }
                assert(country@ == country_of_name(fv[i as int].name));
            }
            if country.as_str().unicode_len() != 2 {
                return Err(BuildError::Validation);
            }
            let ghost cv = country@;
            let ghost b0 = blocks.deep_view();
            let nlines = file.lines.len();
            proof {
                assert(fv[i as int].lines.len() == nlines);
            }
            let mut j: usize = 0;
            while j < nlines
                invariant
                    j <= nlines == fv[i as int].lines.len(),
                    fv == files.deep_view(),
                    fv.len() == files.len(),
                    i < files.len(),
                    fv[i as int] == files[i as int]@,
                    country@ == cv,
                    cv == country_of_name(fv[i as int].name),
                    cv.len() == 2,
                    blocks_wf(blocks.deep_view()),
                    file_blocks_from(fv[i as int].lines, 0, cv, b0) == file_blocks_from(
                        fv[i as int].lines,
                        j as int,
                        cv,
                        blocks.deep_view(),
                    ),
                    build_blocks_spec(fv) == build_blocks_from(fv, i as int, b0),
                decreases nlines - j,
            {
                proof {
                    assert(fv[i as int].lines[j as int] == files[i as int].lines[j as int]@);
                }
                match parse_block(files[i].lines[j].as_str()) {
                    None => {
                        return Err(BuildError::Parse);
                    },
                    Some(t) => {
                        let ghost before = blocks.deep_view();
                        blocks.push(
                            CidrBlock {
                                network: t.0,
                                prefix: t.1,
                                country: country.clone(),
                            },
                        );
                        proof {
                            assert(blocks.deep_view() =~= before.push(
                                BlockV { network: t.0, prefix: t.1, country: cv },
                            ));
                        }
                    },
                }
                j += 1;
            }
            i += 1;
        }
        Ok(HerrbischoffProvider { cidr_blocks: blocks })
    }

    /// Answers a point query by scanning entries in store order and
    /// returning the country of the first block whose containment test
    /// matches.
    pub fn get_ipv4_country(&self, ip_address: u32) -> (r: Option<String>)
        ensures
            r.deep_view() == scan_spec(self@, ip_address),
            r is Some <==> exists|i: int|
                0 <= i < self@.len() && block_covers(#[trigger] self@[i], ip_address),
    {
        proof {
            use_type_invariant(self);
        }
        let n = self.cidr_blocks.len();
        let mut i: usize = 0;
        while i < n
            invariant
                i <= n == self@.len(),
                blocks_wf(self@),
                scan_spec(self@, ip_address) == scan_from(self@, i as int, ip_address),
                forall|j: int| 0 <= j < i ==> !block_covers(#[trigger] self@[j], ip_address),
            decreases n - i,
        {
            proof {
                assert(self@[i as int] == self.cidr_blocks[i as int]@);
            }
            let block = &self.cidr_blocks[i];
            let mask = prefix_mask(block.prefix);
            if ip_address & mask == block.network & mask {
                return Some(block.country.clone());
            }
            i += 1;
        }
        proof {
            lemma_scan_none(self@, 0, ip_address);
        }
        None
    }
}

/// Idempotence law: two constructions from identical input retain
/// identical block lists, so every query resolves identically.
pub proof fn lemma_idempotent_scans(
    files: Seq<FileV>,
    bs1: Seq<BlockV>,
    bs2: Seq<BlockV>,
    ip: u32,
)
    requires
        build_blocks_spec(files) == Ok::<Seq<BlockV>, BuildError>(bs1),
        build_blocks_spec(files) == Ok::<Seq<BlockV>, BuildError>(bs2),
    ensures
        scan_spec(bs1, ip) == scan_spec(bs2, ip),
{
}

} // verus!
