//! Hardware addresses in canonical text form and the directory that maps
//! them to device identities.

use vstd::prelude::*;

verus! {

/// `c` with an ASCII upper-case letter replaced by its lower-case form.
pub open spec fn lower_char(c: char) -> char {
    if 65 <= c as u32 && c as u32 <= 90 {
        ((c as u32) + 32) as char
    } else {
        c
    }
}

/// `s` with every ASCII upper-case letter replaced by its lower-case form.
pub open spec fn ascii_lower(s: Seq<char>) -> Seq<char> {
    Seq::new(s.len(), |i: int| lower_char(s[i]))
}

/// The lower-case hexadecimal digit of `n < 16`.
pub open spec fn hex_digit(n: u8) -> char {
    if n < 10 {
        ((48 + n) as u32) as char
    } else {
        ((87 + n) as u32) as char
    }
}

/// The two lower-case hexadecimal digits of a byte.
pub open spec fn hex_pair(b: u8) -> Seq<char> {
    seq![hex_digit(b / 16), hex_digit(b % 16)]
}

/// The canonical text of a six-byte hardware address: six lower-case
/// hexadecimal pairs separated by colons.
pub open spec fn mac_text(b: Seq<u8>) -> Seq<char> {
    hex_pair(b[0]) + seq![':'] + hex_pair(b[1]) + seq![':'] + hex_pair(b[2]) + seq![':']
        + hex_pair(b[3]) + seq![':'] + hex_pair(b[4]) + seq![':'] + hex_pair(b[5])
}

/// Relies on str::to_ascii_lowercase: each ASCII letter 'A' to 'Z' becomes
/// 'a' to 'z', every other character is kept.
#[verifier::external_body]
fn lowercase_ascii(s: &str) -> (r: String)
    ensures
        r@ == ascii_lower(s@),
{
    s.to_ascii_lowercase()
}

/// Relies on the Display impl of pnet's MacAddr: six two-digit lower-case
/// hexadecimal bytes joined by colons.
#[verifier::external_body]
pub(crate) fn mac_string(octets: [u8; 6]) -> (r: String)
    ensures
        r@ == mac_text(octets@),
{
    let [a, b, c, d, e, f] = octets;
    pnet::util::MacAddr::new(a, b, c, d, e, f).to_string()
}

/// The map that a list of (address, device) entries describes, where a
/// later entry for an address overrides an earlier one.
pub open spec fn entries_map(s: Seq<(String, String)>) -> Map<Seq<char>, Seq<char>>
    decreases s.len(),
{
    if s.len() == 0 {
        Map::empty()
    } else {
        entries_map(s.drop_last()).insert(s.last().0@, s.last().1@)
    }
}

/// A mapping from canonical hardware address text to device identity,
/// built once and then only read.
pub struct AddressDirectory {
    entries: Vec<(String, String)>,
}

impl View for AddressDirectory {
    type V = Map<Seq<char>, Seq<char>>;

    closed spec fn view(&self) -> Map<Seq<char>, Seq<char>> {
        entries_map(self.entries@)
    }
}

impl AddressDirectory {
    /// A directory with no address.
    pub fn new() -> (r: AddressDirectory)
        ensures
            r@ == Map::<Seq<char>, Seq<char>>::empty(),
    {
        AddressDirectory { entries: Vec::new() }
    }

    /// Maps `address` to `device`, replacing an earlier device of that address.
    pub fn insert(&mut self, address: String, device: String)
        ensures
            final(self)@ == old(self)@.insert(address@, device@),
    {
        let ghost pre = self.entries@;
        self.entries.push((address, device));
        proof {
            assert(self.entries@.drop_last() =~= pre);
        }
    }

    /// The device of `address`, if the directory holds it.
    pub fn lookup(&self, address: &String) -> (r: Option<String>)
        ensures
            r.is_some() == self@.contains_key(address@),
            r matches Some(d) ==> d@ == self@[address@],
    {
        let ghost s = self.entries@;
        let mut i: usize = self.entries.len();
        assert(s.take(i as int) =~= s);
        while i > 0
            invariant
                i <= s.len(),
                s == self.entries@,
                entries_map(s).contains_key(address@) == entries_map(s.take(i as int)).contains_key(
                    address@,
                ),
                entries_map(s).contains_key(address@) ==> entries_map(s)[address@] == entries_map(
                    s.take(i as int),
                )[address@],
            decreases i,
        {
            proof {
                assert(s.take(i as int).drop_last() =~= s.take(i - 1));
            }
            if self.entries[i - 1].0 == *address {
                return Some(self.entries[i - 1].1.clone());
            }
            i -= 1;
        }
        assert(s.take(0) =~= Seq::<(String, String)>::empty());
        None
    }
}

/// The device named in a table row is among the selected ones, or no
/// device is selected.
pub open spec fn row_selected(device: Seq<char>, selected: Seq<String>) -> bool {
    selected.len() == 0 || exists|i: int| 0 <= i < selected.len() && selected[i]@ == device
}

/// The directory that the data rows of an address table describe: column 1
/// holds the device, column 2 its address, which is kept in ASCII lower
/// case; rows of unselected devices are left out and a later row for an
/// address overrides an earlier one.
pub open spec fn directory_of(data_rows: Seq<Vec<String>>, selected: Seq<String>) -> Map<
    Seq<char>,
    Seq<char>,
>
    decreases data_rows.len(),
{
    if data_rows.len() == 0 {
        Map::empty()
    } else {
        let m = directory_of(data_rows.drop_last(), selected);
        let row = data_rows.last()@;
        if row_selected(row[1]@, selected) {
            m.insert(ascii_lower(row[2]@), row[1]@)
        } else {
            m
        }
    }
}

/// The rows of an address table after its header row.
pub open spec fn data_rows(rows: Seq<Vec<String>>) -> Seq<Vec<String>> {
    if rows.len() == 0 {
        rows
    } else {
        rows.subrange(1, rows.len() as int)
    }
}

/// Every data row has the device and address columns.
pub open spec fn table_well_formed(rows: Seq<Vec<String>>) -> bool {
    forall|i: int| 1 <= i < rows.len() ==> (#[trigger] rows[i])@.len() >= 3
}

/// Two lists of table rows that differ only in the ASCII letter case of
/// their addresses give the same directory, so every lookup resolves alike.
pub proof fn lemma_directory_ignores_address_case(
    a: Seq<Vec<String>>,
    b: Seq<Vec<String>>,
    selected: Seq<String>,
)
    requires
        a.len() == b.len(),
        forall|i: int|
            0 <= i < a.len() ==> {
                &&& (#[trigger] a[i])@.len() >= 3
                &&& b[i]@.len() >= 3
                &&& a[i]@[1]@ == b[i]@[1]@
                &&& ascii_lower(a[i]@[2]@) == ascii_lower(b[i]@[2]@)
            },
    ensures
        directory_of(a, selected) == directory_of(b, selected),
    decreases a.len(),
{
    if a.len() > 0 {
        lemma_directory_ignores_address_case(a.drop_last(), b.drop_last(), selected);
        assert(a.last() == a[a.len() - 1]);
    }
}

/// The canonical text of an address is already in lower case, so
/// addresses read from frames need no further normalising.
pub proof fn lemma_mac_text_is_lowercase(b: Seq<u8>)
    requires
        b.len() == 6,
    ensures
        ascii_lower(mac_text(b)) == mac_text(b),
{
    let t = mac_text(b);
    assert forall|i: int| 0 <= i < t.len() implies lower_char(#[trigger] t[i]) == t[i] by {
        assert(t[i] == ':' || exists|k: u8| k < 16 && t[i] == hex_digit(k));
    }
    assert(ascii_lower(t) =~= t);
}

fn is_selected(device: &String, selected: &Vec<String>) -> (r: bool)
    ensures
        r == row_selected(device@, selected@),
{
    if selected.len() == 0 {
        return true;
    }
    let mut i: usize = 0;
    while i < selected.len()
        invariant
            i <= selected@.len(),
            forall|j: int| 0 <= j < i ==> selected@[j]@ != device@,
        decreases selected.len() - i,
    {
        if selected[i] == *device {
            return true;
        }
        i += 1;
    }
    false
}

/// Builds the directory from a table whose first row is a header: each
/// further row names a device in column 1 and its address in column 2.
/// Addresses are kept in ASCII lower case; where `selected_devices` is not
/// empty, only rows of devices it names are kept.
pub fn load_mac_addresses(rows: &Vec<Vec<String>>, selected_devices: &Vec<String>) -> (r:
    AddressDirectory)
    requires
        table_well_formed(rows@),
    ensures
        r@ == directory_of(data_rows(rows@), selected_devices@),
{
    let mut dir = AddressDirectory::new();
    let mut i: usize = 1;
    while i < rows.len()
        invariant
            1 <= i,
            table_well_formed(rows@),
            rows@.len() > 0 ==> i <= rows@.len(),
            rows@.len() > 0 ==> dir@ == directory_of(rows@.subrange(1, i as int), selected_devices@),
            rows@.len() == 0 ==> dir@ == Map::<Seq<char>, Seq<char>>::empty(),
        decreases rows.len() - i,
    {
        let row = &rows[i];
        assert(row@.len() >= 3);
        let device = row[1].clone();
        proof {
            assert(rows@.subrange(1, i + 1).drop_last() =~= rows@.subrange(1, i as int));
        }
        if is_selected(&device, selected_devices) {
            let address = lowercase_ascii(row[2].as_str());
            dir.insert(address, device);
        }
        i += 1;
    }
    proof {
        if rows@.len() > 0 {
            assert(rows@.subrange(1, rows@.len() as int) =~= data_rows(rows@));
        }
    }
    dir
}

} // verus!
