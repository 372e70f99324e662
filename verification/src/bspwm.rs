//! Value types and pure computations around the window manager's
//! command-line interface: node-name formatting, query-output decoding,
//! and the mutation actions that the engine hands back to its caller.

use vstd::prelude::*;
use vstd::string::*;

use crate::tree::{
    Children, TreeSnapshot, count_node_descendant_leaves, get_node_children, get_node_id,
};

verus! {

/// What a directional focus change should focus next: a node, a whole
/// desktop, or nothing.
#[derive(Clone, Copy, PartialEq, Eq, Structural, Debug)]
pub enum FocusTarget {
    Node(u64),
    Desktop(u64),
    Nothing,
}

/// A physical edge of a node, used to name resize directions.
#[derive(Clone, Copy, PartialEq, Eq, Structural, Debug)]
pub enum ResizeDirection {
    Top,
    Left,
    Bottom,
    Right,
}

/// A compass direction as the manager's selectors name them.
#[derive(Clone, Copy, PartialEq, Eq, Structural, Debug)]
pub enum CardinalDirection {
    North,
    South,
    West,
    East,
}

/// Compares two string slices character by character.
pub fn str_eq(a: &str, b: &str) -> (r: bool)
    ensures
        r == (a@ == b@),
{
    let a_len = a.unicode_len();
    let b_len = b.unicode_len();
    if a_len != b_len {
        return false;
    }
    let mut i: usize = 0;
    while i < a_len
        invariant
            0 <= i <= a_len,
            a_len == a@.len(),
            b_len == b@.len(),
            a_len == b_len,
            forall|j: int| 0 <= j < i ==> a@[j] == b@[j],
        decreases a_len - i,
    {
        if a.get_char(i) != b.get_char(i) {
            return false;
        }
        i = i + 1;
    }
    proof {
        assert(a@ =~= b@);
    }
    true
}

impl CardinalDirection {
    /// The direction that a selector word names, or `None` for any other
    /// word.
    pub open spec fn spec_from_str(s: Seq<char>) -> Option<CardinalDirection> {
        if s == "north"@ {
            Some(CardinalDirection::North)
        } else if s == "south"@ {
            Some(CardinalDirection::South)
        } else if s == "west"@ {
            Some(CardinalDirection::West)
        } else if s == "east"@ {
            Some(CardinalDirection::East)
        } else {
            None
        }
    }

    /// The selector word for a direction.
    pub open spec fn spec_as_str(self) -> Seq<char> {
        match self {
            CardinalDirection::North => "north"@,
            CardinalDirection::South => "south"@,
            CardinalDirection::East => "east"@,
            CardinalDirection::West => "west"@,
        }
    }

    /// Parses one of the four selector words `north`, `south`, `west`,
    /// `east`; any other string gives `None`.
    pub fn from_str(string: &str) -> (r: Option<CardinalDirection>)
        ensures
            r == CardinalDirection::spec_from_str(string@),
    {
        if str_eq(string, "north") {
            Some(CardinalDirection::North)
        } else if str_eq(string, "south") {
            Some(CardinalDirection::South)
        } else if str_eq(string, "west") {
            Some(CardinalDirection::West)
        } else if str_eq(string, "east") {
            Some(CardinalDirection::East)
        } else {
            None
        }
    }

    /// The selector word for this direction, as the manager reads it.
    pub fn as_str(&self) -> (r: &str)
        ensures
            r@ == self.spec_as_str(),
    {
        match *self {
            CardinalDirection::North => "north",
            CardinalDirection::South => "south",
            CardinalDirection::East => "east",
            CardinalDirection::West => "west",
        }
    }
}

/// The uppercase hexadecimal digit for a value below sixteen.
pub open spec fn spec_hex_char(d: u64) -> char {
    if d == 0 {
        '0'
    } else if d == 1 {
        '1'
    } else if d == 2 {
        '2'
    } else if d == 3 {
        '3'
    } else if d == 4 {
        '4'
    } else if d == 5 {
        '5'
    } else if d == 6 {
        '6'
    } else if d == 7 {
        '7'
    } else if d == 8 {
        '8'
    } else if d == 9 {
        '9'
    } else if d == 10 {
        'A'
    } else if d == 11 {
        'B'
    } else if d == 12 {
        'C'
    } else if d == 13 {
        'D'
    } else if d == 14 {
        'E'
    } else {
        'F'
    }
}

/// The uppercase hexadecimal digits of `id`, most significant first,
/// without leading zeroes (`0` itself is written `0`).
pub open spec fn spec_hex_digits(id: u64) -> Seq<char>
    decreases id,
{
    if id < 16 {
        seq![spec_hex_char(id)]
    } else {
        spec_hex_digits(id / 16).push(spec_hex_char(id % 16))
    }
}

/// The selector name of a node: `0x` followed by its id in uppercase
/// hexadecimal.
pub open spec fn spec_node_name(id: u64) -> Seq<char> {
    seq!['0', 'x'] + spec_hex_digits(id)
}

fn hex_digit_str(d: u64) -> (r: &'static str)
    requires
        d < 16,
    ensures
        r@ == seq![spec_hex_char(d)],
{
    proof {
        reveal_strlit("0");
        reveal_strlit("1");
        reveal_strlit("2");
        reveal_strlit("3");
        reveal_strlit("4");
        reveal_strlit("5");
        reveal_strlit("6");
        reveal_strlit("7");
        reveal_strlit("8");
        reveal_strlit("9");
        reveal_strlit("A");
        reveal_strlit("B");
        reveal_strlit("C");
        reveal_strlit("D");
        reveal_strlit("E");
        reveal_strlit("F");
    }
    let r = if d == 0 {
        "0"
    } else if d == 1 {
        "1"
    } else if d == 2 {
        "2"
    } else if d == 3 {
        "3"
    } else if d == 4 {
        "4"
    } else if d == 5 {
        "5"
    } else if d == 6 {
        "6"
    } else if d == 7 {
        "7"
    } else if d == 8 {
        "8"
    } else if d == 9 {
        "9"
    } else if d == 10 {
        "A"
    } else if d == 11 {
        "B"
    } else if d == 12 {
        "C"
    } else if d == 13 {
        "D"
    } else if d == 14 {
        "E"
    } else {
        "F"
    };
    proof {
        assert(r@ =~= seq![spec_hex_char(d)]);
    }
    r
}

fn push_hex_digits(id: u64, s: &mut String)
    ensures
        final(s)@ == old(s)@ + spec_hex_digits(id),
    decreases id,
{
    if id >= 16 {
        push_hex_digits(id / 16, s);
    }
    let d = id % 16;
    s.append(hex_digit_str(d));
    proof {
        assert(final(s)@ =~= old(s)@ + spec_hex_digits(id));
    }
}

/// The string representation of a node id that the manager's selectors
/// read: `0x` followed by the id in uppercase hexadecimal.
pub fn get_node_name(id: u64) -> (r: String)
    ensures
        r@ == spec_node_name(id),
{
    let mut s = String::new();
    s.append("0x");
    push_hex_digits(id, &mut s);
    proof {
        reveal_strlit("0x");
        assert(s@ =~= spec_node_name(id));
    }
    s
}

/// The string representation of a desktop id, written like a node name.
pub fn get_desktop_name(id: u64) -> (r: String)
    ensures
        r@ == spec_node_name(id),
{
    get_node_name(id)
}

/// The edge word and the x and y deltas that a resize of `amount`
/// toward `direction` hands the manager: growing downward or rightward
/// is positive, and the x delta is always zero.
pub fn resize_deltas(direction: &ResizeDirection, amount: i32) -> (r: (&'static str, i32, i32))
    requires
        amount > i32::MIN,
    ensures
        *direction == ResizeDirection::Top ==> (r.0@ == "top"@ && r.1 == 0 && r.2 == -amount),
        *direction == ResizeDirection::Bottom ==> (r.0@ == "bottom"@ && r.1 == 0 && r.2 == amount),
        *direction == ResizeDirection::Left ==> (r.0@ == "left"@ && r.1 == 0 && r.2 == -amount),
        *direction == ResizeDirection::Right ==> (r.0@ == "right"@ && r.1 == 0 && r.2 == amount),
{
    match *direction {
        ResizeDirection::Top => ("top", 0, -amount),
        ResizeDirection::Bottom => ("bottom", 0, amount),
        ResizeDirection::Left => ("left", 0, -amount),
        ResizeDirection::Right => ("right", 0, amount),
    }
}

/// Space given to an off-path subtree for each leaf it holds, as a
/// percentage of the split it sits in. An empirical constant: it is not
/// derived from anything, only kept in one place.
pub const RATIO_PERCENT_PER_LEAF: i128 = 5;

/// One mutation of the manager's state, handed back by the engine for an
/// unverified caller to issue. The ratio of a split is the share of its
/// area given to its first child, here in percent; the computed value can
/// leave 0..=100, exactly as the per-leaf weighting produces it.
#[derive(Clone, Copy, PartialEq, Eq, Structural, Debug)]
pub enum BspcAction {
    ChangeRatio { node: u64, percent: i128 },
    Balance { node: u64 },
    Focus { node: u64 },
}

/// The balance action on one node.
pub fn node_balance(node: u64) -> (r: BspcAction)
    ensures
        r == (BspcAction::Balance { node }),
{
    BspcAction::Balance { node }
}

/// The focus action on one node.
pub fn node_focus(node: u64) -> (r: BspcAction)
    ensures
        r == (BspcAction::Focus { node }),
{
    BspcAction::Focus { node }
}

/// The mutations that make the node at the end of `path` dominate the
/// subtree `t`: at every split along the path, the off-path child keeps
/// five percent per leaf it holds and is rebalanced internally, and the
/// walk continues into the on-path child.
pub open spec fn spec_focus_plan(t: TreeSnapshot, path: Seq<Children>) -> Seq<BspcAction>
    decreases path.len(),
{
    if path.len() == 0 {
        Seq::empty()
    } else {
        match t.children {
            None => Seq::empty(),
            Some(c) => match path.last() {
                Children::First => seq![
                    BspcAction::ChangeRatio {
                        node: t.id,
                        percent: (100 - (RATIO_PERCENT_PER_LEAF as int) * (c.1.spec_leaf_count() as int)) as i128,
                    },
                    BspcAction::Balance { node: c.1.id },
                ] + spec_focus_plan(*c.0, path.drop_last()),
                Children::Second => seq![
                    BspcAction::ChangeRatio {
                        node: t.id,
                        percent: ((RATIO_PERCENT_PER_LEAF as int) * (c.0.spec_leaf_count() as int)) as i128,
                    },
                    BspcAction::Balance { node: c.0.id },
                ] + spec_focus_plan(*c.1, path.drop_last()),
            },
        }
    }
}

/// Computes the ratio and balance actions that make the node reached by
/// `remaining_path` dominate the subtree `node_json`. The path is
/// consumed from its back, deepest choice first, as `find_path_to_node`
/// built it; it must describe an existing descent. The direction pair
/// only records which physical edges a caller that resizes by hand would
/// touch; the plan itself does not depend on it.
pub fn focus_node_by_path(
    node_json: &TreeSnapshot,
    remaining_path: Vec<Children>,
    resize_directions: &(ResizeDirection, ResizeDirection),
) -> (r: Vec<BspcAction>)
    requires
        node_json.spec_follow_path(remaining_path@) is Some,
    ensures
        r@ == spec_focus_plan(*node_json, remaining_path@),
    decreases remaining_path@.len(),
{
    let ghost path0 = remaining_path@;
    let mut remaining_path = remaining_path;
    let current_intersection = remaining_path.pop();
    match current_intersection {
        None => Vec::new(),
        Some(val) => {
            let children = get_node_children(node_json);
            match children {
                None => {
                    // The path asks for a child of a leaf; ruled out by the
                    // precondition.
                    proof {
                        assert(node_json.spec_follow_path(path0) is None);
                    }
                    Vec::new()
                },
                Some((first_child, second_child)) => {
                    let (traverse_node, balance_node, balance_first) = match val {
                        Children::First => (first_child, second_child, false),
                        Children::Second => (second_child, first_child, true),
                    };
                    let balance_node_size = count_node_descendant_leaves(balance_node);
                    let share: i128 = RATIO_PERCENT_PER_LEAF * (balance_node_size as i128);
                    let ratio: i128 = if balance_first {
                        share
                    } else {
                        100 - share
                    };
                    let mut result: Vec<BspcAction> = Vec::new();
                    result.push(BspcAction::ChangeRatio { node: node_json.id, percent: ratio });
                    result.push(node_balance(get_node_id(balance_node)));
                    let mut rest = focus_node_by_path(traverse_node, remaining_path, resize_directions);
                    result.append(&mut rest);
                    proof {
                        assert(path0.drop_last() =~= remaining_path@);
                        assert(result@ =~= spec_focus_plan(*node_json, path0));
                    }
                    result
                },
            }
        },
    }
}

/// Takes the last node out of a query answer. The answer must be present;
/// an empty answer gives `None`.
pub fn first_node(list: Option<Vec<u64>>) -> (r: Option<u64>)
    requires
        list is Some,
    ensures
        list->Some_0@.len() > 0 ==> r == Some(list->Some_0@.last()),
        list->Some_0@.len() == 0 ==> r is None,
{
    match list {
        Some(mut v) => v.pop(),
        None => None,
    }
}

/// Whether the node `id` occurs in `all_nodes`, the manager's listing of
/// every node that currently exists.
pub fn get_node_exists(all_nodes: &Vec<u64>, id: u64) -> (r: bool)
    ensures
        r == all_nodes@.contains(id),
{
    let mut i: usize = 0;
    while i < all_nodes.len()
        invariant
            0 <= i <= all_nodes.len(),
            forall|j: int| 0 <= j < i ==> all_nodes@[j] != id,
        decreases all_nodes.len() - i,
    {
        if all_nodes[i] == id {
            return true;
        }
        i = i + 1;
    }
    false
}

/// Whether `c` is a hexadecimal digit, of either case.
pub open spec fn spec_is_hex_digit(c: char) -> bool {
    (48 <= c as u32 && c as u32 <= 57) || (97 <= c as u32 && c as u32 <= 102) || (65 <= c as u32
        && c as u32 <= 70)
}

/// The value of a hexadecimal digit; other characters count as zero so
/// that digit strings always fold to something non-negative.
pub open spec fn spec_hex_val(c: char) -> int {
    if 48 <= c as u32 && c as u32 <= 57 {
        c as u32 - 48
    } else if 97 <= c as u32 && c as u32 <= 102 {
        c as u32 - 87
    } else if 65 <= c as u32 && c as u32 <= 70 {
        c as u32 - 55
    } else {
        0
    }
}

/// The number that a run of hexadecimal digits denotes, most significant
/// digit first.
pub open spec fn spec_digits_val(digits: Seq<char>) -> int
    decreases digits.len(),
{
    if digits.len() == 0 {
        0
    } else {
        spec_digits_val(digits.drop_last()) * 16 + spec_hex_val(digits.last())
    }
}

proof fn lemma_digits_val_nonneg(digits: Seq<char>)
    ensures
        spec_digits_val(digits) >= 0,
    decreases digits.len(),
{
    if digits.len() > 0 {
        lemma_digits_val_nonneg(digits.drop_last());
    }
}

proof fn lemma_digits_val_monotone(digits: Seq<char>, k: int)
    requires
        0 <= k <= digits.len(),
    ensures
        spec_digits_val(digits) >= spec_digits_val(digits.take(k)),
    decreases digits.len(),
{
    if k < digits.len() {
        lemma_digits_val_nonneg(digits.drop_last());
        lemma_digits_val_monotone(digits.drop_last(), k);
        assert(digits.drop_last().take(k) =~= digits.take(k));
    } else {
        assert(digits.take(k) =~= digits);
    }
}

/// One line of query output that denotes a node id: `0x`, then at least
/// one hexadecimal digit, folding to a value that fits in 64 bits.
pub open spec fn spec_valid_hex_line(l: Seq<char>) -> bool {
    l.len() >= 3 && l[0] == '0' && l[1] == 'x' && (forall|i: int|
        2 <= i < l.len() ==> spec_is_hex_digit(#[trigger] l[i])) && spec_digits_val(l.skip(2))
        <= u64::MAX
}

/// The node id that a valid line denotes.
pub open spec fn spec_line_val(l: Seq<char>) -> u64 {
    spec_digits_val(l.skip(2)) as u64
}

/// The lines of `s`, split at every newline, as `str::split` yields
/// them: an empty text is one empty line, and a trailing newline yields
/// a trailing empty line.
pub open spec fn spec_split_lines(s: Seq<char>) -> Seq<Seq<char>>
    decreases s.len(),
{
    if s.len() == 0 {
        seq![Seq::<char>::empty()]
    } else if s[0] == '\n' {
        seq![Seq::<char>::empty()] + spec_split_lines(s.skip(1))
    } else {
        let rest = spec_split_lines(s.skip(1));
        seq![seq![s[0]] + rest[0]] + rest.skip(1)
    }
}

proof fn lemma_split_lines_nonempty(s: Seq<char>)
    ensures
        spec_split_lines(s).len() >= 1,
    decreases s.len(),
{
    if s.len() > 0 {
        lemma_split_lines_nonempty(s.skip(1));
    }
}

/// The ids denoted by a sequence of output lines: empty lines are
/// skipped, every other line must be a valid id line, and any line that
/// is not spoils the whole output.
pub open spec fn spec_parse_lines(ls: Seq<Seq<char>>) -> Option<Seq<u64>>
    decreases ls.len(),
{
    if ls.len() == 0 {
        Some(Seq::empty())
    } else if ls[0].len() == 0 {
        spec_parse_lines(ls.skip(1))
    } else if !spec_valid_hex_line(ls[0]) {
        None
    } else {
        match spec_parse_lines(ls.skip(1)) {
            Some(vs) => Some(seq![spec_line_val(ls[0])] + vs),
            None => None,
        }
    }
}

/// Whether the two characters `0x` occur anywhere in `s`.
pub open spec fn spec_contains_hex_marker(s: Seq<char>) -> bool {
    exists|i: int| 0 <= i && i + 2 <= s.len() && #[trigger] s[i] == '0' && s[i + 1] == 'x'
}

/// A query answer is taken up at all only when it shows the `0x` marker
/// of a node listing somewhere, or is empty.
pub open spec fn spec_query_ok(s: Seq<char>) -> bool {
    spec_contains_hex_marker(s) || s.len() == 0
}

/// The node ids that a raw query answer denotes, or `None` when the
/// answer is not a node listing or holds a malformed line.
pub open spec fn spec_parse_output(s: Seq<char>) -> Option<Seq<u64>> {
    if spec_query_ok(s) {
        spec_parse_lines(spec_split_lines(s))
    } else {
        None
    }
}

/// Relies on regex's `Regex::find` with the fixed pattern `0x` followed
/// by a possibly empty run of uppercase hexadecimal digits: a match
/// exists exactly where the two characters `0x` occur somewhere in the
/// haystack.
#[verifier::external_body]
fn output_has_hex_marker(s: &str) -> (r: bool)
    ensures
        r == spec_contains_hex_marker(s@),
{
    let query_check = regex::Regex::new("0x[0123456789ABCDEF]*").unwrap();
    query_check.find(s).is_some()
}

fn chars_of(s: &str) -> (r: Vec<char>)
    ensures
        r@ == s@,
{
    let len = s.unicode_len();
    let mut r: Vec<char> = Vec::new();
    let mut i: usize = 0;
    while i < len
        invariant
            0 <= i <= len,
            len == s@.len(),
            r@ =~= s@.take(i as int),
        decreases len - i,
    {
        r.push(s.get_char(i));
        proof {
            assert(r@ =~= s@.take(i + 1));
        }
        i = i + 1;
    }
    proof {
        assert(r@ =~= s@);
    }
    r
}

spec fn spec_join_state(done: Seq<Seq<char>>, cur: Seq<char>, rest: Seq<Seq<char>>) -> Seq<
    Seq<char>,
> {
    done + seq![cur + rest[0]] + rest.skip(1)
}

fn split_lines(chars: &Vec<char>) -> (r: Vec<Vec<char>>)
    ensures
        r.deep_view() == spec_split_lines(chars@),
{
    let n = chars.len();
    let mut done: Vec<Vec<char>> = Vec::new();
    let mut cur: Vec<char> = Vec::new();
    let mut i: usize = 0;
    proof {
        lemma_split_lines_nonempty(chars@);
        assert(chars@.skip(0) =~= chars@);
        assert(spec_join_state(done.deep_view(), cur@, spec_split_lines(chars@)) =~~= spec_split_lines(
            chars@,
        ));
    }
    while i < n
        invariant
            0 <= i <= n,
            n == chars@.len(),
            spec_split_lines(chars@) =~~= spec_join_state(
                done.deep_view(),
                cur@,
                spec_split_lines(chars@.skip(i as int)),
            ),
        decreases n - i,
    {
        let ghost done0 = done.deep_view();
        let ghost cur0 = cur@;
        let c = chars[i];
        proof {
            lemma_split_lines_nonempty(chars@.skip(i + 1));
            assert(chars@.skip(i as int).skip(1) =~= chars@.skip(i + 1));
        }
        if c == '\n' {
            done.push(cur);
            cur = Vec::new();
            proof {
                let rest = spec_split_lines(chars@.skip(i + 1));
                assert(done.deep_view() =~~= done0.push(cur0));
                assert(spec_join_state(done0, cur0, spec_split_lines(chars@.skip(i as int)))
                    =~~= spec_join_state(done0.push(cur0), Seq::<char>::empty(), rest));
            }
        } else {
            cur.push(c);
            proof {
                let rest = spec_split_lines(chars@.skip(i + 1));
                assert(spec_join_state(done0, cur0, spec_split_lines(chars@.skip(i as int)))
                    =~~= spec_join_state(done0, cur0.push(c), rest));
            }
        }
        i = i + 1;
    }
    proof {
        assert(chars@.skip(n as int) =~= Seq::<char>::empty());
    }
    done.push(cur);
    proof {
        assert(done.deep_view() =~~= spec_split_lines(chars@));
    }
    done
}

fn hex_digit_value(c: char) -> (r: Option<u64>)
    ensures
        r is Some <==> spec_is_hex_digit(c),
        r matches Some(v) ==> v == spec_hex_val(c),
{
    let code = c as u32;
    if 48 <= code && code <= 57 {
        Some((code - 48) as u64)
    } else if 97 <= code && code <= 102 {
        Some((code - 87) as u64)
    } else if 65 <= code && code <= 70 {
        Some((code - 55) as u64)
    } else {
        None
    }
}

fn parse_hex_line(line: &Vec<char>) -> (r: Option<u64>)
    ensures
        r is Some <==> spec_valid_hex_line(line@),
        r matches Some(v) ==> v == spec_line_val(line@),
{
    if line.len() < 3 {
        return None;
    }
    if line[0] != '0' || line[1] != 'x' {
        return None;
    }
    let n = line.len();
    let mut val: u64 = 0;
    let mut k: usize = 2;
    while k < n
        invariant
            2 <= k <= n,
            n == line@.len(),
            n >= 3,
            line@[0] == '0',
            line@[1] == 'x',
            forall|i: int| 2 <= i < k ==> spec_is_hex_digit(#[trigger] line@[i]),
            val == spec_digits_val(line@.subrange(2, k as int)),
        decreases n - k,
    {
        let ghost prefix = line@.subrange(2, k as int);
        let d = match hex_digit_value(line[k]) {
            Some(d) => d,
            None => {
                return None;
            },
        };
        let wide: u128 = (val as u128) * 16 + (d as u128);
        proof {
            assert(line@.subrange(2, k + 1).drop_last() =~= prefix);
        }
        if wide > u64::MAX as u128 {
            proof {
                lemma_digits_val_monotone(line@.skip(2), k - 1);
                assert(line@.skip(2).take(k - 1) =~= line@.subrange(2, k + 1));
            }
            return None;
        }
        val = wide as u64;
        k = k + 1;
    }
    proof {
        assert(line@.subrange(2, n as int) =~= line@.skip(2));
    }
    Some(val)
}

fn parse_query_output(raw_output: &str) -> (r: Result<Vec<u64>, String>)
    ensures
        r matches Ok(v) ==> spec_parse_output(raw_output@) == Some(v@),
        r is Ok <==> spec_parse_output(raw_output@) is Some,
{
    if !output_has_hex_marker(raw_output) && !raw_output.is_empty() {
        let mut msg = String::new();
        msg.append("Node query failed, query returned ");
        msg.append(raw_output);
        return Err(msg);
    }
    let chars = chars_of(raw_output);
    let lines = split_lines(&chars);
    let ghost all = lines.deep_view();
    let mut result: Vec<u64> = Vec::new();
    let mut i: usize = 0;
    proof {
        assert(all.skip(0) =~~= all);
    }
    while i < lines.len()
        invariant
            0 <= i <= lines.len(),
            all == lines.deep_view(),
            all.len() == lines.len(),
            all == spec_split_lines(raw_output@),
            spec_query_ok(raw_output@),
            spec_parse_lines(all) == (match spec_parse_lines(all.skip(i as int)) {
                Some(vs) => Some(result@ + vs),
                None => None::<Seq<u64>>,
            }),
        decreases lines.len() - i,
    {
        let ghost rest = all.skip(i as int);
        proof {
            assert(rest[0] == lines@[i as int]@);
            assert(rest.skip(1) =~~= all.skip(i + 1));
        }
        let line = &lines[i];
        if line.len() > 0 {
            match parse_hex_line(line) {
                Some(v) => {
                    result.push(v);
                    proof {
                        assert(spec_parse_lines(all) == (match spec_parse_lines(
                            all.skip(i + 1),
                        ) {
                            Some(vs) => Some(result@ + vs),
                            None => None::<Seq<u64>>,
                        })) by {
                            if spec_parse_lines(all.skip(i + 1)) is Some {
                                let vs = spec_parse_lines(all.skip(i + 1))->Some_0;
                                assert(result@ + vs =~= (result@.drop_last() + (seq![
                                    spec_line_val(rest[0]),
                                ] + vs)));
                            }
                        }
                    }
                },
                None => {
                    proof {
                        assert(spec_parse_lines(all.skip(i as int)) is None);
                        assert(spec_parse_output(raw_output@) is None);
                    }
                    let mut msg = String::new();
                    msg.append("Malformed node id in query output ");
                    msg.append(raw_output);
                    return Err(msg);
                },
            }
        }
        i = i + 1;
    }
    proof {
        assert(all.skip(lines.len() as int) =~~= Seq::<Seq<char>>::empty());
        assert(spec_parse_lines(all) == Some(result@ + Seq::<u64>::empty()));
        assert(result@ + Seq::<u64>::empty() =~= result@);
    }
    Ok(result)
}

/// Decodes the answer of a node query (`bspc query -N ...`): one node id
/// per line, written `0x` and hexadecimal digits. `None` when the answer
/// is no node listing or holds a malformed line.
pub fn node_query(raw_output: &str) -> (r: Option<Vec<u64>>)
    ensures
        r matches Some(v) ==> spec_parse_output(raw_output@) == Some(v@),
        r is Some <==> spec_parse_output(raw_output@) is Some,
{
    match parse_query_output(raw_output) {
        Ok(v) => Some(v),
        Err(_) => None,
    }
}

/// Decodes the answer of a desktop query (`bspc query -D ...`), written
/// like a node listing; a malformed answer is reported with the failing
/// text.
pub fn desktop_query(raw_output: &str) -> (r: Result<Vec<u64>, String>)
    ensures
        r matches Ok(v) ==> spec_parse_output(raw_output@) == Some(v@),
        r is Ok <==> spec_parse_output(raw_output@) is Some,
{
    parse_query_output(raw_output)
}

} // verus!
