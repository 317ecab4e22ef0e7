//! The texts shown for voyages and ports: table cells with unknown values
//! marked and counts grouped by thousands.
use vstd::prelude::*;
use crate::fuzzy::Port;
use crate::model::{NodeType, Place, Voyage};

verus! {

/// The voyages that a table shows.
pub struct VoyageTableProps {
    pub voyages: Vec<Voyage>,
}

/// What a search box shows: its endpoint, its text, its suggestions, and
/// whether a place is chosen.
pub struct SearchInputProps {
    pub node_type: NodeType,
    pub value: String,
    pub suggestions: Vec<Place>,
    pub is_set: bool,
}

/// The label of the search box of an endpoint.
pub open spec fn label_text(node_type: NodeType) -> Seq<char> {
    match node_type {
        NodeType::Origin => "Origin Place"@,
        NodeType::Destination => "Destination Place"@,
    }
}

/// The lines shown for a suggested place: its name, then its region and its
/// broad region when known.
pub open spec fn suggestion_text(p: Place) -> Seq<Seq<char>> {
    let lines = seq![p.name@];
    let lines = match p.region_name {
        Some(r) => lines.push("Region: "@ + r@),
        None => lines,
    };
    match p.broad_region_name {
        Some(b) => lines.push("Broad Region: "@ + b@),
        None => lines,
    }
}

impl SearchInputProps {
    /// The label of this search box.
    pub fn label(&self) -> (r: String)
        ensures
            r@ == label_text(self.node_type),
    {
        match self.node_type {
            NodeType::Origin => String::from_str("Origin Place"),
            NodeType::Destination => String::from_str("Destination Place"),
        }
    }
}

/// The lines shown for a suggested place.
pub fn suggestion_lines(p: &Place) -> (r: Vec<String>)
    ensures
        r@.len() == suggestion_text(*p).len(),
        forall|i: int| 0 <= i < r@.len() ==> (#[trigger] r@[i])@ == suggestion_text(*p)[i],
{
    let mut r: Vec<String> = Vec::new();
    r.push(p.name.clone());
    let ghost lines = seq![p.name@];
    assert(r@.len() == lines.len() && forall|i: int| 0 <= i < r@.len() ==> (#[trigger] r@[i])@ == lines[i]);
    match &p.region_name {
        Some(region) => {
            let mut line = String::from_str("Region: ");
            line.append(region.as_str());
            r.push(line);
            proof {
                lines = lines.push("Region: "@ + region@);
            }
        },
        None => {},
    }
    assert(r@.len() == lines.len() && forall|i: int| 0 <= i < r@.len() ==> (#[trigger] r@[i])@ == lines[i]);
    match &p.broad_region_name {
        Some(broad) => {
            let mut line = String::from_str("Broad Region: ");
            line.append(broad.as_str());
            r.push(line);
            proof {
                lines = lines.push("Broad Region: "@ + broad@);
            }
        },
        None => {},
    }
    assert(lines == suggestion_text(*p));
    r
}

/// The text shown for an unknown value.
pub open spec fn unknown_text() -> Seq<char> {
    "Unknown"@
}

/// The decimal digit for `d` in `0..10`.
pub open spec fn digit_char(d: int) -> char {
    if d == 0 {
        '0'
    } else if d == 1 {
        '1'
    } else if d == 2 {
        '2'
    } else if d == 3 {
        '3'
    } else if d == 4 {
        '4'
    } else if d == 5 {
        '5'
    } else if d == 6 {
        '6'
    } else if d == 7 {
        '7'
    } else if d == 8 {
        '8'
    } else {
        '9'
    }
}

/// The decimal digits of `n >= 0`, without leading zeros.
pub open spec fn digits(n: nat) -> Seq<char>
    decreases n,
{
    if n < 10 {
        seq![digit_char(n as int)]
    } else {
        digits(n / 10).push(digit_char((n % 10) as int))
    }
}

/// The decimal text of `n`, with a leading `-` when negative.
pub open spec fn decimal(n: int) -> Seq<char> {
    if n < 0 {
        seq!['-'] + digits((-n) as nat)
    } else {
        digits(n as nat)
    }
}

/// The first `k` characters of `s` with a `,` before each character (but the
/// first) that has a multiple of three characters from it to the end.
pub open spec fn grouped_prefix(s: Seq<char>, k: int) -> Seq<char>
    decreases k,
{
    if k <= 0 {
        Seq::empty()
    } else {
        let before = grouped_prefix(s, k - 1);
        let i = k - 1;
        if i > 0 && (s.len() - i) % 3 == 0 {
            before.push(',').push(s[i])
        } else {
            before.push(s[i])
        }
    }
}

/// `s` with its characters grouped by threes from the end.
pub open spec fn grouped(s: Seq<char>) -> Seq<char> {
    grouped_prefix(s, s.len() as int)
}

/// A character of a written number: a decimal digit, a sign or a separator.
pub open spec fn number_char(c: char) -> bool {
    ('0' <= c && c <= '9') || c == '-' || c == ','
}

proof fn lemma_digits_chars(n: nat)
    ensures
        forall|i: int| 0 <= i < digits(n).len() ==> number_char(#[trigger] digits(n)[i]),
    decreases n,
{
    let d = digit_char((n % 10) as int);
    assert(number_char(d));
    if n >= 10 {
        lemma_digits_chars(n / 10);
        let prefix = digits(n / 10);
        assert forall|i: int| 0 <= i < digits(n).len() implies number_char(#[trigger] digits(n)[i]) by {
            if i < prefix.len() {
                assert(digits(n)[i] == prefix[i]);
            } else {
                assert(digits(n)[i] == d);
            }
        }
    } else {
        assert(digits(n) == seq![digit_char(n as int)]);
        assert(number_char(digit_char(n as int)));
    }
}

proof fn lemma_decimal_chars(n: int)
    ensures
        forall|i: int| 0 <= i < decimal(n).len() ==> number_char(#[trigger] decimal(n)[i]),
{
    if n < 0 {
        lemma_digits_chars((-n) as nat);
        assert forall|i: int| 0 <= i < decimal(n).len() implies number_char(#[trigger] decimal(n)[i]) by {
            if i > 0 {
                assert(decimal(n)[i] == digits((-n) as nat)[i - 1]);
            }
        }
    } else {
        lemma_digits_chars(n as nat);
    }
}

proof fn lemma_grouped_chars(s: Seq<char>, k: int)
    requires
        0 <= k <= s.len(),
        forall|i: int| 0 <= i < s.len() ==> number_char(#[trigger] s[i]),
    ensures
        forall|i: int|
            0 <= i < grouped_prefix(s, k).len() ==> number_char(#[trigger] grouped_prefix(s, k)[i]),
    decreases k,
{
    if k > 0 {
        lemma_grouped_chars(s, k - 1);
        let before = grouped_prefix(s, k - 1);
        assert(number_char(s[k - 1]));
        assert forall|i: int|
            0 <= i < grouped_prefix(s, k).len() implies number_char(#[trigger] grouped_prefix(s, k)[i]) by {
            if i < before.len() {
                assert(grouped_prefix(s, k)[i] == before[i]);
            }
        }
    }
}

/// Appends the character `c` of a written number to `s`.
fn push_number_char(s: &mut String, c: char)
    requires
        number_char(c),
    ensures
        final(s)@ == old(s)@.push(c),
{
    match c {
        '0' => {
            proof {
                reveal_strlit("0");
                assert("0"@ =~= seq!['0']);
            }
            s.append("0");
        },
        '1' => {
            proof {
                reveal_strlit("1");
                assert("1"@ =~= seq!['1']);
            }
            s.append("1");
        },
        '2' => {
            proof {
                reveal_strlit("2");
                assert("2"@ =~= seq!['2']);
            }
            s.append("2");
        },
        '3' => {
            proof {
                reveal_strlit("3");
                assert("3"@ =~= seq!['3']);
            }
            s.append("3");
        },
        '4' => {
            proof {
                reveal_strlit("4");
                assert("4"@ =~= seq!['4']);
            }
            s.append("4");
        },
        '5' => {
            proof {
                reveal_strlit("5");
                assert("5"@ =~= seq!['5']);
            }
            s.append("5");
        },
        '6' => {
            proof {
                reveal_strlit("6");
                assert("6"@ =~= seq!['6']);
            }
            s.append("6");
        },
        '7' => {
            proof {
                reveal_strlit("7");
                assert("7"@ =~= seq!['7']);
            }
            s.append("7");
        },
        '8' => {
            proof {
                reveal_strlit("8");
                assert("8"@ =~= seq!['8']);
            }
            s.append("8");
        },
        '9' => {
            proof {
                reveal_strlit("9");
                assert("9"@ =~= seq!['9']);
            }
            s.append("9");
        },
        '-' => {
            proof {
                reveal_strlit("-");
                assert("-"@ =~= seq!['-']);
            }
            s.append("-");
        },
        ',' => {
            proof {
                reveal_strlit(",");
                assert(","@ =~= seq![',']);
            }
            s.append(",");
        },
        _ => {},
    }
}

/// The text of the characters of a written number, in order.
fn string_of(cs: &Vec<char>) -> (r: String)
    requires
        forall|i: int| 0 <= i < cs@.len() ==> number_char(#[trigger] cs@[i]),
    ensures
        r@ == cs@,
{
    let mut r = String::new();
    let mut i: usize = 0;
    while i < cs.len()
        invariant
            i <= cs@.len(),
            forall|i: int| 0 <= i < cs@.len() ==> number_char(#[trigger] cs@[i]),
            r@ == cs@.subrange(0, i as int),
        decreases cs@.len() - i,
    {
        push_number_char(&mut r, cs[i]);
        i = i + 1;
        assert(r@ == cs@.subrange(0, i as int));
    }
    assert(cs@.subrange(0, cs@.len() as int) == cs@);
    r
}

fn digit_exec(d: u32) -> (c: char)
    requires
        d < 10,
    ensures
        c == digit_char(d as int),
{
    if d == 0 {
        '0'
    } else if d == 1 {
        '1'
    } else if d == 2 {
        '2'
    } else if d == 3 {
        '3'
    } else if d == 4 {
        '4'
    } else if d == 5 {
        '5'
    } else if d == 6 {
        '6'
    } else if d == 7 {
        '7'
    } else if d == 8 {
        '8'
    } else {
        '9'
    }
}

fn digits_exec(n: u64) -> (r: Vec<char>)
    ensures
        r@ == digits(n as nat),
    decreases n,
{
    if n < 10 {
        let mut r: Vec<char> = Vec::new();
        r.push(digit_exec(n as u32));
        r
    } else {
        let mut r = digits_exec(n / 10);
        r.push(digit_exec((n % 10) as u32));
        r
    }
}

/// The decimal characters of `n`.
pub fn decimal_exec(n: i32) -> (r: Vec<char>)
    ensures
        r@ == decimal(n as int),
{
    if n < 0 {
        let magnitude: u64 = (-(n as i64)) as u64;
        let d = digits_exec(magnitude);
        let mut r: Vec<char> = Vec::new();
        r.push('-');
        let mut i: usize = 0;
        while i < d.len()
            invariant
                i <= d@.len(),
                r@ == seq!['-'] + d@.subrange(0, i as int),
            decreases d@.len() - i,
        {
            r.push(d[i]);
            i = i + 1;
            assert(r@ == seq!['-'] + d@.subrange(0, i as int));
        }
        assert(d@.subrange(0, d@.len() as int) == d@);
        r
    } else {
        digits_exec(n as u64)
    }
}

/// `s` with its characters grouped by threes from the end.
pub fn grouped_exec(s: &Vec<char>) -> (r: Vec<char>)
    ensures
        r@ == grouped(s@),
{
    let n = s.len();
    let mut r: Vec<char> = Vec::new();
    let mut i: usize = 0;
    while i < n
        invariant
            n == s@.len(),
            i <= n,
            r@ == grouped_prefix(s@, i as int),
        decreases n - i,
    {
        if i > 0 && (n - i) % 3 == 0 {
            r.push(',');
        }
        r.push(s[i]);
        i = i + 1;
    }
    r
}

/// The text of a value, or `Unknown`.
pub open spec fn option_text(value: Option<i32>) -> Seq<char> {
    match value {
        Some(v) => decimal(v as int),
        None => unknown_text(),
    }
}

/// The text of a count: its digits grouped by thousands, after a `-` when
/// negative; or `Unknown`.
pub open spec fn number_text(value: Option<i32>) -> Seq<char> {
    match value {
        Some(v) => if v < 0 {
            seq!['-'] + grouped(digits((-v) as nat))
        } else {
            grouped(digits(v as nat))
        },
        None => unknown_text(),
    }
}

/// The text of a date, or `Unknown`.
pub open spec fn date_text(value: Option<String>) -> Seq<char> {
    match value {
        Some(d) => d@,
        None => unknown_text(),
    }
}

/// The text of an optional value: its decimal form, or `Unknown`.
pub fn format_option(value: Option<i32>) -> (r: String)
    ensures
        r@ == option_text(value),
{
    match value {
        Some(v) => {
            let cs = decimal_exec(v);
            proof {
                lemma_decimal_chars(v as int);
            }
            string_of(&cs)
        },
        None => String::from_str("Unknown"),
    }
}

/// The text of an optional count: its digits grouped by thousands, after a
/// `-` when negative; or `Unknown`.
pub fn format_number(value: Option<i32>) -> (r: String)
    ensures
        r@ == number_text(value),
{
    match value {
        Some(v) => {
            let magnitude: u64 = if v < 0 {
                (-(v as i64)) as u64
            } else {
                v as u64
            };
            let d = digits_exec(magnitude);
            let g = grouped_exec(&d);
            proof {
                lemma_digits_chars(magnitude as nat);
                lemma_grouped_chars(d@, d@.len() as int);
            }
            let text = string_of(&g);
            if v < 0 {
                let mut r = String::new();
                push_number_char(&mut r, '-');
                r.append(text.as_str());
                r
            } else {
                text
            }
        },
        None => String::from_str("Unknown"),
    }
}

fn format_date(value: &Option<String>) -> (r: String)
    ensures
        r@ == date_text(*value),
{
    match value {
        Some(d) => d.clone(),
        None => String::from_str("Unknown"),
    }
}

/// The cells of the row of `v`: origin port and region, destination port and
/// region, embarkation and disembarkation dates, embarked and disembarked
/// counts.
pub open spec fn voyage_cells(v: Voyage) -> Seq<Seq<char>> {
    seq![
        option_text(v.origin_port),
        option_text(v.origin_region),
        option_text(v.destination_port),
        option_text(v.destination_region),
        date_text(v.embark_date),
        date_text(v.disembark_date),
        number_text(v.slaves_embarked),
        number_text(v.slaves_disembarked),
    ]
}

/// The headings of the voyage table's columns.
pub open spec fn heading_cells() -> Seq<Seq<char>> {
    seq![
        "Origin Port"@,
        "Origin Region"@,
        "Destination Port"@,
        "Destination Region"@,
        "Embarkation Date"@,
        "Disembarkation Date"@,
        "Slaves Embarked"@,
        "Slaves Disembarked"@,
    ]
}

/// The heading row of the voyage table.
pub fn voyage_table_headings() -> (r: Vec<String>)
    ensures
        r@.len() == 8,
        forall|j: int| 0 <= j < 8 ==> (#[trigger] r@[j])@ == heading_cells()[j],
{
    let mut r: Vec<String> = Vec::new();
    r.push(String::from_str("Origin Port"));
    r.push(String::from_str("Origin Region"));
    r.push(String::from_str("Destination Port"));
    r.push(String::from_str("Destination Region"));
    r.push(String::from_str("Embarkation Date"));
    r.push(String::from_str("Disembarkation Date"));
    r.push(String::from_str("Slaves Embarked"));
    r.push(String::from_str("Slaves Disembarked"));
    r
}

/// The rows of the voyage table: the heading row, then one row per voyage, in
/// order, each with the cells of `voyage_cells`.
pub fn voyage_table(props: &VoyageTableProps) -> (r: Vec<Vec<String>>)
    ensures
        r@.len() == props.voyages@.len() + 1,
        r@[0]@.len() == 8,
        forall|j: int| 0 <= j < 8 ==> (#[trigger] r@[0]@[j])@ == heading_cells()[j],
        forall|i: int|
            0 <= i < props.voyages@.len() ==> (#[trigger] r@[i + 1])@.len() == 8 && forall|j: int|
                0 <= j < 8 ==> (#[trigger] r@[i + 1]@[j])@ == voyage_cells(props.voyages@[i])[j],
{
    let mut r: Vec<Vec<String>> = Vec::new();
    r.push(voyage_table_headings());
    let mut i: usize = 0;
    while i < props.voyages.len()
        invariant
            i <= props.voyages@.len(),
            r@.len() == i + 1,
            r@[0]@.len() == 8,
            forall|j: int| 0 <= j < 8 ==> (#[trigger] r@[0]@[j])@ == heading_cells()[j],
            forall|k: int|
                0 <= k < i ==> (#[trigger] r@[k + 1])@.len() == 8 && forall|j: int|
                    0 <= j < 8 ==> (#[trigger] r@[k + 1]@[j])@ == voyage_cells(props.voyages@[k])[j],
        decreases props.voyages@.len() - i,
    {
        let v = &props.voyages[i];
        let mut row: Vec<String> = Vec::new();
        row.push(format_option(v.origin_port));
        row.push(format_option(v.origin_region));
        row.push(format_option(v.destination_port));
        row.push(format_option(v.destination_region));
        row.push(format_date(&v.embark_date));
        row.push(format_date(&v.disembark_date));
        row.push(format_number(v.slaves_embarked));
        row.push(format_number(v.slaves_disembarked));
        r.push(row);
        i = i + 1;
    }
    r
}

/// The lines of a port list: each port's name and specific region.
pub fn port_list(ports: &Vec<Port>) -> (r: Vec<(String, String)>)
    ensures
        r@.len() == ports@.len(),
        forall|i: int|
            0 <= i < r@.len() ==> (#[trigger] r@[i]).0@ == ports@[i].name@ && r@[i].1@
                == ports@[i].specific_region@,
{
    let mut r: Vec<(String, String)> = Vec::new();
    let mut i: usize = 0;
    while i < ports.len()
        invariant
            i <= ports@.len(),
            r@.len() == i,
            forall|k: int|
                0 <= k < i ==> (#[trigger] r@[k]).0@ == ports@[k].name@ && r@[k].1@
                    == ports@[k].specific_region@,
        decreases ports@.len() - i,
    {
        r.push((ports[i].name.clone(), ports[i].specific_region.clone()));
        i = i + 1;
    }
    r
}

} // verus!
