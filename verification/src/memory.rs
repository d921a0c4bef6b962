//! A memory of abstract bytes.
//!
//! The memory holds one abstract byte for each address that was written.
//! A value of several bytes is taken apart into its bytes when it is
//! stored and put together from them when it is loaded, in the memory's
//! byte order. An address has to be known precisely to be read or written
//! through. An address that was never written holds no value.

use crate::domain::{Memory, Value};
use crate::entries::{
    copy_of, entries_map, find, join_entries, join_maps, join_value, joinable, keys_distinct, put,
    same_map,
};
use crate::error::Error;
use crate::il::{modulus, Constant};
use crate::interval::{Interval, Origin, Range};
use crate::types::Endian;
use vstd::arithmetic::power2::pow2;
use vstd::prelude::*;
use vstd::std_specs::cmp::PartialEqSpecImpl;

verus! {

/// A memory model that keeps an [`Interval`] of 8 bits for every address
/// that was written.
#[derive(Debug)]
pub struct ByteMemory {
    endian: Endian,
    cells: Vec<(u64, Interval)>,
}

/// The mathematical content of a [`ByteMemory`]: its byte order and the
/// abstract byte at each address that was written.
pub struct ByteMemoryView {
    pub endian: Endian,
    pub cells: Map<u64, Interval>,
}

/// The digit of `value` at the place `place`, in base 256: the byte of
/// that significance, counted from the least significant.
pub open spec fn digit(value: nat, place: nat) -> nat
    decreases place,
{
    if place == 0 {
        value % 256
    } else {
        digit(value / 256, (place - 1) as nat)
    }
}

/// The number that a sequence of digits in base 256 stands for, the least
/// significant digit first.
pub open spec fn numeral(digits: Seq<nat>) -> nat
    decreases digits.len(),
{
    if digits.len() == 0 {
        0
    } else {
        digits[0] + 256 * numeral(digits.drop_first())
    }
}

/// The place of the byte that lies `offset` bytes above the address of a
/// value of `count` bytes; also the offset of the byte at a place.
pub open spec fn place_of(endian: Endian, count: nat, offset: nat) -> nat {
    match endian {
        Endian::Little => offset,
        Endian::Big => (count - 1 - offset) as nat,
    }
}

/// The widths that a memory stores and loads: whole bytes, up to 8 of
/// them.
pub open spec fn whole_bytes(bits: usize) -> bool {
    bits % 8 == 0 && 8 <= bits <= 64
}

/// Every value of the interval fits the interval's width.
pub open spec fn fits(value: Interval) -> bool {
    match value.range {
        Range::Empty => true,
        Range::Span { lo, hi } => hi < pow2(value.bits as nat),
    }
}

/// The abstract byte that holds no value.
pub open spec fn vacant() -> Interval {
    Interval { bits: 8, range: Range::Empty, origin: Origin::Unknown }
}

/// The abstract byte that holds the one value `byte`.
pub open spec fn exactly(byte: nat) -> Interval {
    Interval {
        bits: 8,
        range: Range::Span { lo: byte as u64, hi: byte as u64 },
        origin: Origin::Unknown,
    }
}

/// The abstract byte that a store of `value` leaves `offset` bytes above
/// its address: no value if `value` holds none, the byte of that place if
/// `value` is one constant, and any byte otherwise.
pub open spec fn byte_to_store(endian: Endian, value: Interval, offset: nat) -> Interval {
    match value.range {
        Range::Empty => vacant(),
        Range::Span { lo, hi } => if lo == hi {
            exactly(digit(lo as nat, place_of(endian, (value.bits / 8) as nat, offset)))
        } else {
            Interval::any_spec(8)
        },
    }
}

/// The cells after the first `count` bytes of `value` were written at
/// `address`.
pub open spec fn written(
    cells: Map<u64, Interval>,
    endian: Endian,
    address: u64,
    value: Interval,
    count: nat,
) -> Map<u64, Interval> {
    Map::new(
        |a: u64| cells.contains_key(a) || address <= a < address + count,
        |a: u64|
            if address <= a < address + count {
                byte_to_store(endian, value, (a - address) as nat)
            } else {
                cells[a]
            },
    )
}

/// The abstract byte at an address: the one that was written there last,
/// or no value.
pub open spec fn cell(cells: Map<u64, Interval>, address: int) -> Interval {
    if 0 <= address <= u64::MAX && cells.contains_key(address as u64) {
        cells[address as u64]
    } else {
        vacant()
    }
}

/// The cell holds no value: its range is empty, or runs from a bound to a
/// lower one.
pub open spec fn holds_nothing(cell: Interval) -> bool {
    match cell.range {
        Range::Empty => true,
        Range::Span { lo, hi } => lo > hi,
    }
}

/// Every value of `small` is a value of `big`.
pub open spec fn covers(big: Interval, small: Interval) -> bool {
    holds_nothing(small) || match big.range {
        Range::Empty => false,
        Range::Span { lo: big_lo, hi: big_hi } => match small.range {
            Range::Empty => true,
            Range::Span { lo, hi } => big_lo <= lo && hi <= big_hi,
        },
    }
}

/// The byte in a cell, where the cell holds one byte alone.
pub open spec fn byte_in(cell: Interval) -> Option<nat> {
    match cell.range {
        Range::Span { lo, hi } => if lo == hi && lo < 256 {
            Some(lo as nat)
        } else {
            None
        },
        Range::Empty => None,
    }
}

/// The digits of the value of `count` bytes at `address`, the least
/// significant first, where every cell holds one byte alone.
pub open spec fn digits_at(cells: Map<u64, Interval>, endian: Endian, address: u64, count: nat)
    -> Seq<nat> {
    Seq::new(
        count,
        |place: int| byte_in(cell(cells, address + place_of(endian, count, place as nat)))->Some_0,
    )
}

/// What a load of `bits` bits at `address` gives: no value where one of
/// the cells holds nothing, the constant that the bytes make up where every
/// cell holds one byte alone, and any value of that width otherwise.
pub open spec fn read(cells: Map<u64, Interval>, endian: Endian, address: u64, bits: usize)
    -> Interval {
    let count = (bits / 8) as nat;
    if exists|i: nat| i < count && holds_nothing(#[trigger] cell(cells, address + i)) {
        Interval { bits, range: Range::Empty, origin: Origin::Unknown }
    } else if forall|i: nat| i < count ==> byte_in(#[trigger] cell(cells, address + i)) is Some {
        Interval::constant_spec(
            Constant { value: numeral(digits_at(cells, endian, address, count)) as u64, bits },
        )
    } else {
        Interval::any_spec(bits)
    }
}

impl View for ByteMemory {
    type V = ByteMemoryView;

    closed spec fn view(&self) -> ByteMemoryView {
        ByteMemoryView { endian: self.endian, cells: entries_map(self.cells@) }
    }
}

/// Two to the power of `8 * (n + 1)` is 256 times two to the power of
/// `8 * n`.
proof fn lemma_radix(n: nat)
    ensures
        pow2(8 * (n + 1)) == 256 * pow2(8 * n),
        pow2(8 * n) >= 1,
{
    vstd::arithmetic::power2::lemma2_to64();
    vstd::arithmetic::power2::lemma_pow2_adds(8, 8 * n);
    vstd::arithmetic::power2::lemma_pow2_pos(8 * n);
}

/// A digit in base 256 is below 256.
proof fn lemma_digit_bound(value: nat, place: nat)
    ensures
        digit(value, place) < 256,
    decreases place,
{
    if place > 0 {
        lemma_digit_bound(value / 256, (place - 1) as nat);
    }
}

/// A numeral of `n` digits below 256 is below two to the power of `8 * n`.
proof fn lemma_numeral_bound(digits: Seq<nat>)
    requires
        forall|i: int| 0 <= i < digits.len() ==> #[trigger] digits[i] < 256,
    ensures
        numeral(digits) < pow2(8 * digits.len()),
    decreases digits.len(),
{
    if digits.len() == 0 {
        vstd::arithmetic::power2::lemma2_to64();
    } else {
        let rest = digits.drop_first();
        assert forall|i: int| 0 <= i < rest.len() implies #[trigger] rest[i] < 256 by {
            assert(rest[i] == digits[i + 1]);
        }
        lemma_numeral_bound(rest);
        lemma_radix(rest.len());
        assert(digits[0] < 256);
    }
}

/// The digits of a number make up that number.
proof fn lemma_numeral_of_digits(value: nat, count: nat)
    requires
        value < pow2(8 * count),
    ensures
        numeral(Seq::new(count, |place: int| digit(value, place as nat))) == value,
    decreases count,
{
    let digits = Seq::new(count, |place: int| digit(value, place as nat));
    if count == 0 {
        vstd::arithmetic::power2::lemma2_to64();
    } else {
        let rest = Seq::new((count - 1) as nat, |place: int| digit(value / 256, place as nat));
        assert(digits.drop_first() =~= rest);
        lemma_radix((count - 1) as nat);
        lemma_numeral_of_digits(value / 256, (count - 1) as nat);
    }
}

/// What is loaded from cells that cover other cells contains what is
/// loaded from those.
proof fn lemma_read_covers(
    big: Map<u64, Interval>,
    small: Map<u64, Interval>,
    endian: Endian,
    address: u64,
    bits: usize,
)
    requires
        whole_bytes(bits),
        address + bits / 8 <= u64::MAX + 1,
        forall|i: nat|
            i < bits / 8 ==> covers(
                #[trigger] cell(big, address + i),
                #[trigger] cell(small, address + i),
            ),
    ensures
        Interval::join_spec(read(big, endian, address, bits), read(small, endian, address, bits))
            == Ok::<Interval, Error>(read(big, endian, address, bits)),
{
    let count = (bits / 8) as nat;
    assert(pow2(bits as nat) <= u64::MAX + 1) by {
        vstd::arithmetic::power2::lemma2_to64();
        if bits < 64 {
            vstd::arithmetic::power2::lemma_pow2_strictly_increases(bits as nat, 64);
        }
    }
    if forall|i: nat| i < count ==> !holds_nothing(#[trigger] cell(small, address + i)) {
        assert forall|i: nat| i < count implies !holds_nothing(
            #[trigger] cell(big, address + i),
        ) by {
            assert(covers(cell(big, address + i), cell(small, address + i)));
        }
        if forall|i: nat| i < count ==> byte_in(#[trigger] cell(big, address + i)) is Some {
            assert forall|i: nat| i < count implies byte_in(#[trigger] cell(small, address + i))
                == byte_in(cell(big, address + i)) by {
                assert(covers(cell(big, address + i), cell(small, address + i)));
            }
            assert(digits_at(small, endian, address, count) =~= digits_at(
                big,
                endian,
                address,
                count,
            )) by {
                assert forall|place: int| 0 <= place < count implies digits_at(
                    small,
                    endian,
                    address,
                    count,
                )[place] == digits_at(big, endian, address, count)[place] by {
                    let offset = place_of(endian, count, place as nat);
                    assert(offset < count);
                    assert(byte_in(cell(small, address + offset)) == byte_in(
                        cell(big, address + offset),
                    ));
                }
            }
        } else {
            if forall|i: nat| i < count ==> byte_in(#[trigger] cell(small, address + i)) is Some {
                let digits = digits_at(small, endian, address, count);
                assert forall|place: int| 0 <= place < digits.len() implies #[trigger] digits[place]
                    < 256 by {
                    let offset = place_of(endian, count, place as nat);
                    assert(offset < count);
                    assert(byte_in(cell(small, address + offset)) is Some);
                }
                lemma_numeral_bound(digits);
                assert(8 * count == bits);
            }
        }
    }
}

/// A cell of the join of two maps covers the cell of either at the same
/// address.
proof fn lemma_join_covers(a: Map<u64, Interval>, b: Map<u64, Interval>, address: int)
    requires
        joinable::<u64, Interval>(a, b),
    ensures
        covers(cell(join_maps::<u64, Interval>(a, b), address), cell(a, address)),
        covers(cell(join_maps::<u64, Interval>(a, b), address), cell(b, address)),
{
    if 0 <= address <= u64::MAX {
        let at = address as u64;
        assert(join_value::<u64, Interval>(a, b, at) is Ok);
    }
}

/// The digit of `value` at the place `place`.
fn digit_of(value: u64, place: usize) -> (r: u64)
    ensures
        r == digit(value as nat, place as nat),
        r < 256,
{
    let mut rest = value;
    let mut i: usize = 0;
    while i < place
        invariant
            i <= place,
            digit(value as nat, place as nat) == digit(rest as nat, (place - i) as nat),
        decreases place - i,
    {
        rest = rest / 256;
        i = i + 1;
    }
    rest % 256
}

/// Whether every value of the interval fits the interval's width.
fn fits_width(value: &Interval) -> (r: bool)
    requires
        value.bits <= 64,
    ensures
        r == fits(*value),
{
    match value.range {
        Range::Empty => true,
        Range::Span { lo, hi } => (hi as u128) < modulus(value.bits),
    }
}

/// The abstract byte that a store of `value` leaves `offset` bytes above
/// its address.
fn byte_for(endian: Endian, value: &Interval, offset: usize) -> (r: Interval)
    requires
        whole_bytes(value.bits),
        offset < value.bits / 8,
    ensures
        r == byte_to_store(endian, *value, offset as nat),
{
    match value.range {
        Range::Empty => Interval { bits: 8, range: Range::Empty, origin: Origin::Unknown },
        Range::Span { lo, hi } => if lo == hi {
            let place = match endian {
                Endian::Little => offset,
                Endian::Big => value.bits / 8 - 1 - offset,
            };
            let byte = digit_of(lo, place);
            Interval { bits: 8, range: Range::Span { lo: byte, hi: byte }, origin: Origin::Unknown }
        } else {
            proof {
                vstd::arithmetic::power2::lemma2_to64();
            }
            Interval { bits: 8, range: Range::Span { lo: 0, hi: 255 }, origin: Origin::Unknown }
        },
    }
}

impl Clone for ByteMemory {
    /// A memory with the same byte order and the same cells.
    fn clone(&self) -> (r: Self)
        ensures
            r@ == self@,
    {
        proof {
            use_type_invariant(self);
        }
        ByteMemory { endian: self.endian, cells: copy_of(&self.cells) }
    }
}

impl PartialEq for ByteMemory {
    /// Two memories are equal when they have the same byte order and hold
    /// the same byte at every address.
    fn eq(&self, other: &Self) -> (r: bool) {
        proof {
            use_type_invariant(self);
            use_type_invariant(other);
        }
        self.endian == other.endian && same_map(&self.cells, &other.cells)
    }
}

impl PartialEqSpecImpl for ByteMemory {
    open spec fn obeys_eq_spec() -> bool {
        true
    }

    open spec fn eq_spec(&self, other: &Self) -> bool {
        self@ == other@
    }
}

impl Eq for ByteMemory {

}

impl ByteMemory {
    #[verifier::type_invariant]
    spec fn inv(self) -> bool {
        keys_distinct(self.cells@)
    }

    /// The byte order of the memory.
    pub fn endian(&self) -> (r: Endian)
        ensures
            r == self@.endian,
    {
        self.endian
    }

    /// The abstract byte at `address`, if one was written there.
    pub fn byte(&self, address: u64) -> (r: Option<Interval>)
        ensures
            match r {
                Some(byte) => self@.cells.contains_key(address) && self@.cells[address] == byte,
                None => !self@.cells.contains_key(address),
            },
    {
        proof {
            use_type_invariant(self);
        }
        match find(&self.cells, &address) {
            Some(byte) => Some(*byte),
            None => None,
        }
    }

    /// The cells of the memory: one entry for each address that was
    /// written, in no particular order.
    pub fn cells(&self) -> (r: &Vec<(u64, Interval)>)
        ensures
            keys_distinct(r@),
            entries_map(r@) == self@.cells,
    {
        proof {
            use_type_invariant(self);
        }
        &self.cells
    }

    /// Put the abstract byte `byte` at `address`, as it is.
    pub fn set_byte(&mut self, address: u64, byte: Interval)
        ensures
            final(self)@.endian == old(self)@.endian,
            final(self)@.cells == old(self)@.cells.insert(address, byte),
    {
        proof {
            use_type_invariant(&*self);
        }
        let mut cells: Vec<(u64, Interval)> = Vec::new();
        std::mem::swap(&mut cells, &mut self.cells);
        put(&mut cells, address, byte);
        self.cells = cells;
    }

    /// The abstract byte at `address`, or no value where none was written.
    fn cell_at(&self, address: u64) -> (r: Interval)
        ensures
            r == cell(self@.cells, address as int),
    {
        match self.byte(address) {
            Some(byte) => byte,
            None => Interval { bits: 8, range: Range::Empty, origin: Origin::Unknown },
        }
    }
}

impl Memory<Interval> for ByteMemory {
    open spec fn endian_spec(m: ByteMemoryView) -> Endian {
        m.endian
    }

    open spec fn new_spec(endian: Endian) -> ByteMemoryView {
        ByteMemoryView { endian, cells: Map::empty() }
    }

    /// A store needs an address that is one constant, a value of whole
    /// bytes that fits its width, and room for its bytes below the end of
    /// the address space.
    open spec fn store_spec(m: ByteMemoryView, index: Interval, value: Interval) -> Result<
        ByteMemoryView,
        Error,
    > {
        match index.known_spec() {
            None => Err(Error::AbstractAddressTooImprecise),
            Some(address) => if !whole_bytes(value.bits) || !fits(value) {
                Err(Error::LatticeInconsistency)
            } else if address.value + value.bits / 8 > u64::MAX + 1 {
                Err(Error::AbstractAddressTooImprecise)
            } else {
                Ok(
                    ByteMemoryView {
                        endian: m.endian,
                        cells: written(
                            m.cells,
                            m.endian,
                            address.value,
                            value,
                            (value.bits / 8) as nat,
                        ),
                    },
                )
            },
        }
    }

    /// A load needs an address that is one constant, a width of whole
    /// bytes, and its bytes below the end of the address space.
    open spec fn load_spec(m: ByteMemoryView, index: Interval, bits: usize) -> Result<
        Interval,
        Error,
    > {
        match index.known_spec() {
            None => Err(Error::AbstractAddressTooImprecise),
            Some(address) => if !whole_bytes(bits) {
                Err(Error::LatticeInconsistency)
            } else if address.value + bits / 8 > u64::MAX + 1 {
                Err(Error::AbstractAddressTooImprecise)
            } else {
                Ok(read(m.cells, m.endian, address.value, bits))
            },
        }
    }

    /// Memories of one byte order are joined cell by cell, as
    /// [`join_maps`] says; memories of different byte orders have no join.
    open spec fn join_spec(a: ByteMemoryView, b: ByteMemoryView) -> Result<ByteMemoryView, Error> {
        if a.endian != b.endian || !joinable::<u64, Interval>(a.cells, b.cells) {
            Err(Error::LatticeInconsistency)
        } else {
            Ok(
                ByteMemoryView {
                    endian: a.endian,
                    cells: join_maps::<u64, Interval>(a.cells, b.cells),
                },
            )
        }
    }

    /// A store that fails leaves the memory as it was.
    fn store(&mut self, index: &Interval, value: Interval) -> (r: Result<(), Error>)
        ensures
            r is Err ==> final(self)@ == old(self)@,
    {
        proof {
            use_type_invariant(&*self);
        }
        let address = match index.known() {
            Some(address) => address.value,
            None => {
                return Err(Error::AbstractAddressTooImprecise);
            },
        };
        if value.bits % 8 != 0 || value.bits < 8 || value.bits > 64 || !fits_width(&value) {
            return Err(Error::LatticeInconsistency);
        }
        let count = value.bits / 8;
        if address as u128 + count as u128 > 0x1_0000_0000_0000_0000 {
            return Err(Error::AbstractAddressTooImprecise);
        }
        let endian = self.endian;
        let mut cells: Vec<(u64, Interval)> = Vec::new();
        std::mem::swap(&mut cells, &mut self.cells);
        let ghost before = entries_map(cells@);
        let mut i: usize = 0;
        proof {
            assert(entries_map(cells@) =~= written(before, endian, address, value, 0));
        }
        while i < count
            invariant
                i <= count,
                count == value.bits / 8,
                whole_bytes(value.bits),
                address + count <= u64::MAX + 1,
                keys_distinct(cells@),
                entries_map(cells@) == written(before, endian, address, value, i as nat),
            decreases count - i,
        {
            let byte = byte_for(endian, &value, i);
            let at = address + i as u64;
            put(&mut cells, at, byte);
            proof {
                assert(entries_map(cells@) =~= written(
                    before,
                    endian,
                    address,
                    value,
                    (i + 1) as nat,
                ));
            }
            i = i + 1;
        }
        self.cells = cells;
        Ok(())
    }

    fn load(&self, index: &Interval, bits: usize) -> (r: Result<Interval, Error>) {
        proof {
            use_type_invariant(self);
        }
        let address = match index.known() {
            Some(address) => address.value,
            None => {
                return Err(Error::AbstractAddressTooImprecise);
            },
        };
        if bits % 8 != 0 || bits < 8 || bits > 64 {
            return Err(Error::LatticeInconsistency);
        }
        let count = bits / 8;
        if address as u128 + count as u128 > 0x1_0000_0000_0000_0000 {
            return Err(Error::AbstractAddressTooImprecise);
        }
        let ghost cells = self@.cells;
        let mut some_vacant = false;
        let mut all_known = true;
        let mut i: usize = 0;
        while i < count
            invariant
                i <= count,
                address + count <= u64::MAX + 1,
                cells == self@.cells,
                some_vacant == (exists|j: nat|
                    j < i && holds_nothing(#[trigger] cell(cells, address + j))),
                all_known == (forall|j: nat|
                    j < i ==> byte_in(#[trigger] cell(cells, address + j)) is Some),
            decreases count - i,
        {
            let byte = self.cell_at(address + i as u64);
            proof {
                assert(byte == cell(cells, address + (i as nat)));
            }
            match byte.range {
                Range::Empty => {
                    some_vacant = true;
                    all_known = false;
                },
                Range::Span { lo, hi } => {
                    if lo > hi {
                        some_vacant = true;
                    }
                    if lo != hi || lo >= 256 {
                        all_known = false;
                    }
                },
            }
            i = i + 1;
        }
        if some_vacant {
            return Ok(Interval { bits, range: Range::Empty, origin: Origin::Unknown });
        }
        if !all_known {
            let hi: u128 = modulus(bits) - 1;
            return Ok(
                Interval {
                    bits,
                    range: Range::Span { lo: 0, hi: hi as u64 },
                    origin: Origin::Unknown,
                },
            );
        }
        let ghost digits = digits_at(cells, self.endian, address, count as nat);
        let mut value: u128 = 0;
        let mut place: usize = count;
        proof {
            assert(digits.subrange(count as int, count as int) =~= Seq::<nat>::empty());
            vstd::arithmetic::power2::lemma2_to64();
        }
        while place > 0
            invariant
                place <= count <= 8,
                address + count <= u64::MAX + 1,
                cells == self@.cells,
                digits == digits_at(cells, self.endian, address, count as nat),
                forall|j: nat| j < count ==> byte_in(#[trigger] cell(cells, address + j)) is Some,
                value == numeral(digits.subrange(place as int, count as int)),
                value < pow2(8 * ((count - place) as nat)),
            decreases place,
        {
            place = place - 1;
            let offset = match self.endian {
                Endian::Little => place,
                Endian::Big => count - 1 - place,
            };
            let byte = self.cell_at(address + offset as u64);
            let digit = match byte.range {
                Range::Span { lo, hi } => lo,
                Range::Empty => 0,
            };
            proof {
                assert(offset == place_of(self.endian, count as nat, place as nat));
                assert(byte == cell(cells, address + (offset as nat)));
                assert(byte_in(byte) is Some);
                assert(digits[place as int] == digit);
                let upper = digits.subrange(place as int, count as int);
                assert(upper.drop_first() =~= digits.subrange(place + 1, count as int));
                assert(upper[0] == digits[place as int]);
                lemma_radix((count - place - 1) as nat);
                vstd::arithmetic::power2::lemma2_to64();
                assert(pow2(8 * ((count - place) as nat)) <= pow2(64)) by {
                    if 8 * (count - place) < 64 {
                        vstd::arithmetic::power2::lemma_pow2_strictly_increases(
                            (8 * (count - place)) as nat,
                            64,
                        );
                    }
                }
            }
            value = digit as u128 + 256 * value;
        }
        proof {
            assert(digits.subrange(0, count as int) =~= digits);
            vstd::arithmetic::power2::lemma2_to64();
            if 8 * count < 64 {
                vstd::arithmetic::power2::lemma_pow2_strictly_increases((8 * count) as nat, 64);
            }
        }
        Ok(
            Interval {
                bits,
                range: Range::Span { lo: value as u64, hi: value as u64 },
                origin: Origin::Unknown,
            },
        )
    }

    fn new(endian: Endian) -> (r: Self) {
        let r = ByteMemory { endian, cells: Vec::new() };
        assert(entries_map(r.cells@) =~= Map::<u64, Interval>::empty());
        r
    }

    fn join(self, other: &Self) -> (r: Result<Self, Error>) {
        proof {
            use_type_invariant(&self);
            use_type_invariant(other);
        }
        if self.endian != other.endian {
            return Err(Error::LatticeInconsistency);
        }
        let ByteMemory { endian, cells } = self;
        match join_entries(cells, &other.cells) {
            Ok(cells) => Ok(ByteMemory { endian, cells }),
            Err(error) => {
                proof {
                    let key = choose|key: u64| #[trigger]
                        join_value::<u64, Interval>(self@.cells, other@.cells, key) == Err::<
                            Interval,
                            Error,
                        >(error);
                    assert(!(join_value::<u64, Interval>(self@.cells, other@.cells, key) is Ok));
                }
                Err(Error::LatticeInconsistency)
            },
        }
    }

    proof fn lemma_new_endian(endian: Endian) {
    }

    proof fn lemma_store_endian(m: ByteMemoryView, index: Interval, value: Interval) {
    }

    proof fn lemma_join_endian(a: ByteMemoryView, b: ByteMemoryView) {
    }

    proof fn lemma_join_sound(a: ByteMemoryView, b: ByteMemoryView, index: Interval, bits: usize) {
        let address = index.known_spec()->Some_0.value;
        let joined = join_maps::<u64, Interval>(a.cells, b.cells);
        assert forall|i: nat| i < bits / 8 implies covers(
            #[trigger] cell(joined, address + i),
            #[trigger] cell(a.cells, address + i),
        ) && covers(cell(joined, address + i), #[trigger] cell(b.cells, address + i)) by {
            lemma_join_covers(a.cells, b.cells, address + i);
        }
        lemma_read_covers(joined, a.cells, a.endian, address, bits);
        lemma_read_covers(joined, b.cells, a.endian, address, bits);
    }

    proof fn lemma_load_after_store(m: ByteMemoryView, index: Interval, value: Interval) {
        let address = index.known_spec()->Some_0.value;
        let count = (value.bits / 8) as nat;
        let cells = written(m.cells, m.endian, address, value, count);
        assert forall|i: nat| i < count implies #[trigger] cell(cells, address + i)
            == byte_to_store(m.endian, value, i) by {
            assert(cells.contains_key((address + i) as u64));
        }
        match value.range {
            Range::Empty => {
                assert(holds_nothing(cell(cells, address + 0nat)));
            },
            Range::Span { lo, hi } => {
                if lo == hi {
                    assert forall|i: nat| i < count implies byte_in(
                        #[trigger] cell(cells, address + i),
                    ) == Some(digit(lo as nat, place_of(m.endian, count, i))) by {
                        lemma_digit_bound(lo as nat, place_of(m.endian, count, i));
                    }
                    let digits = digits_at(cells, m.endian, address, count);
                    assert(digits =~= Seq::new(count, |place: int| digit(lo as nat, place as nat)))
                        by {
                        assert forall|place: int| 0 <= place < count implies digits[place]
                            == digit(lo as nat, place as nat) by {
                            let offset = place_of(m.endian, count, place as nat);
                            assert(offset < count);
                            assert(place_of(m.endian, count, offset) == place);
                            assert(byte_in(cell(cells, address + offset)) == Some(
                                digit(lo as nat, place as nat),
                            ));
                        }
                    }
                    assert(8 * count == value.bits);
                    lemma_numeral_of_digits(lo as nat, count);
                } else {
                    assert(byte_in(cell(cells, address + 0nat)) is None) by {
                        vstd::arithmetic::power2::lemma2_to64();
                    }
                    assert forall|i: nat| i < count implies !holds_nothing(
                        #[trigger] cell(cells, address + i),
                    ) by {
                        vstd::arithmetic::power2::lemma2_to64();
                    }
                    assert(pow2(value.bits as nat) <= u64::MAX + 1) by {
                        vstd::arithmetic::power2::lemma2_to64();
                        if value.bits < 64 {
                            vstd::arithmetic::power2::lemma_pow2_strictly_increases(
                                value.bits as nat,
                                64,
                            );
                        }
                    }
                }
            },
        }
    }

    proof fn lemma_byte_order(address: Constant, constant: Constant, i: nat) {
        let count = (constant.bits / 8) as nat;
        let value = Interval::constant_spec(constant);
        let little = written(Map::empty(), Endian::Little, address.value, value, count);
        let big = written(Map::empty(), Endian::Big, address.value, value, count);
        let near = (address.value + i) as u64;
        let far = (address.value + (count - 1 - i)) as u64;
        vstd::arithmetic::power2::lemma2_to64();
        if address.bits < 64 {
            vstd::arithmetic::power2::lemma_pow2_strictly_increases(address.bits as nat, 64);
        }
        assert(little.contains_key(near));
        assert(big.contains_key(far));
        assert(cell(little, near as int) == cell(big, far as int));
        assert(digits_at(little, Endian::Little, near, 1) =~= digits_at(big, Endian::Big, far, 1));
        assert(cell(little, near + 0nat) == cell(little, near as int));
        assert(cell(big, far + 0nat) == cell(big, far as int));
        assert(read(little, Endian::Little, near, 8) == read(big, Endian::Big, far, 8)) by {
            let a = cell(little, near as int);
            if holds_nothing(a) {
                assert(holds_nothing(cell(little, near + 0nat)));
                assert(holds_nothing(cell(big, far + 0nat)));
            }
        }
    }

    proof fn lemma_clone(a: Self, b: Self) {
    }

    proof fn lemma_eq(a: Self, b: Self) {
    }
}

} // verus!
