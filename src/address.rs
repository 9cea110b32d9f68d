use vstd::prelude::*;

verus! {

/// One entry of a traced process's memory map: the mapped address range,
/// the offset of the mapping in its file, whether it is executable, and the
/// path of the mapped file.
#[derive(Clone, Debug)]
pub struct MapEntry {
    pub begin: u64,
    pub end: u64,
    pub offset: u64,
    pub executable: bool,
    pub pathname: String,
}

/// The runtime address of file-relative (DWARF) address `va` in a mapping
/// that starts at `base` and maps the file from `offset`.
pub open spec fn runtime_of(va: int, base: int, offset: int) -> int {
    va + base - offset
}

/// The file-relative (DWARF) address of runtime address `address` in a
/// mapping that starts at `base` and maps the file from `offset`.
pub open spec fn file_relative_of(address: int, base: int, offset: int) -> int {
    address - base + offset
}

pub open spec fn fits_u64(x: int) -> bool {
    0 <= x <= u64::MAX
}

/// Translates a file-relative address into the address where it lives in
/// the process; `None` when the result falls outside 64 bits.
pub fn runtime_address(va: u64, map: &MapEntry) -> (r: Option<u64>)
    ensures
        r == (if fits_u64(runtime_of(va as int, map.begin as int, map.offset as int)) {
            Some(runtime_of(va as int, map.begin as int, map.offset as int) as u64)
        } else {
            None::<u64>
        }),
{
    if va >= map.offset {
        (va - map.offset).checked_add(map.begin)
    } else {
        let d = map.offset - va;
        if map.begin >= d {
            Some(map.begin - d)
        } else {
            None
        }
    }
}

/// Translates a runtime address of the process back into the file-relative
/// address that DWARF uses; `None` when the result falls outside 64 bits.
pub fn file_relative_address(address: u64, map: &MapEntry) -> (r: Option<u64>)
    ensures
        r == (if fits_u64(file_relative_of(address as int, map.begin as int, map.offset as int)) {
            Some(file_relative_of(address as int, map.begin as int, map.offset as int) as u64)
        } else {
            None::<u64>
        }),
{
    if address >= map.begin {
        (address - map.begin).checked_add(map.offset)
    } else {
        let d = map.begin - address;
        if map.offset >= d {
            Some(map.offset - d)
        } else {
            None
        }
    }
}

/// Translating a file-relative address to the process and back yields the
/// address itself, and so does the opposite round trip.
pub proof fn lemma_address_round_trip(va: int, address: int, base: int, offset: int)
    ensures
        file_relative_of(runtime_of(va, base, offset), base, offset) == va,
        runtime_of(file_relative_of(address, base, offset), base, offset) == address,
{
}

/// The mapping that holds the executable's code: mapped from the file at
/// `executable` and executable.
pub open spec fn is_code_mapping(m: MapEntry, executable: Seq<char>) -> bool {
    m.executable && m.pathname@ == executable
}

/// Finds the first mapping of `maps` that maps the file `executable` with
/// execute permission.
pub fn select_executable_mapping(maps: &Vec<MapEntry>, executable: &String) -> (r: Option<usize>)
    ensures
        match r {
            Some(i) => i < maps@.len() && is_code_mapping(maps@[i as int], executable@) && forall|j: int|
                0 <= j < i ==> !is_code_mapping(#[trigger] maps@[j], executable@),
            None => forall|j: int|
                0 <= j < maps@.len() ==> !is_code_mapping(#[trigger] maps@[j], executable@),
        },
{
    let mut i: usize = 0;
    while i < maps.len()
        invariant
            i <= maps@.len(),
            forall|j: int| 0 <= j < i ==> !is_code_mapping(#[trigger] maps@[j], executable@),
        decreases maps@.len() - i,
    {
        if maps[i].executable && maps[i].pathname == *executable {
            return Some(i);
        }
        i = i + 1;
    }
    None
}

} // verus!
