//! Node addressing: pure functions mapping node names to child names,
//! parent names and file paths.
//!
//! A node name is a string over the alphabet `{r, 0..7}`: the root is `"r"`,
//! and the child `i` of a node `N` is named `N` followed by the digit `i`.
//! The parent of a name of length one or less is the empty string, the
//! sentinel for "no parent".

use vstd::prelude::*;

verus! {

/// Characters that may follow the leading `r` of a node name.
pub open spec fn is_octant_char(c: char) -> bool {
    '0' <= c && c <= '7'
}

/// Well-formed node name: `r` followed by octant digits.
pub open spec fn wf_name(s: Seq<char>) -> bool {
    &&& s.len() >= 1
    &&& s[0] == 'r'
    &&& forall|i: int| 1 <= i < s.len() ==> is_octant_char(#[trigger] s[i])
}

/// The digit character that addresses child `i`.
pub open spec fn octant_char(i: int) -> char {
    if i == 0 {
        '0'
    } else if i == 1 {
        '1'
    } else if i == 2 {
        '2'
    } else if i == 3 {
        '3'
    } else if i == 4 {
        '4'
    } else if i == 5 {
        '5'
    } else if i == 6 {
        '6'
    } else {
        '7'
    }
}

/// Name of child `i` of the node named `n`.
pub open spec fn spec_child_name(n: Seq<char>, i: int) -> Seq<char> {
    n.push(octant_char(i))
}

/// Name of the parent of the node named `n`; empty when `n` has no parent.
pub open spec fn spec_parent_name(n: Seq<char>) -> Seq<char> {
    if n.len() <= 1 {
        Seq::empty()
    } else {
        n.subrange(0, n.len() - 1)
    }
}

/// Path of the file of node `name` inside `dir`.
pub open spec fn spec_node_path(dir: Seq<char>, name: Seq<char>) -> Seq<char> {
    dir + seq!['/'] + name
}

/// Appends the digit of child `child_index` to `parent`.
pub fn child_node_name(parent: &str, child_index: u8) -> (r: String)
    requires
        child_index < 8,
    ensures
        r@ == spec_child_name(parent@, child_index as int),
{
    let digit: &str = if child_index == 0 {
        "0"
    } else if child_index == 1 {
        "1"
    } else if child_index == 2 {
        "2"
    } else if child_index == 3 {
        "3"
    } else if child_index == 4 {
        "4"
    } else if child_index == 5 {
        "5"
    } else if child_index == 6 {
        "6"
    } else {
        "7"
    };
    proof {
        reveal_strlit("0");
        reveal_strlit("1");
        reveal_strlit("2");
        reveal_strlit("3");
        reveal_strlit("4");
        reveal_strlit("5");
        reveal_strlit("6");
        reveal_strlit("7");
    }
    let r = parent.to_owned().concat(digit);
    proof {
        assert(r@ =~= spec_child_name(parent@, child_index as int));
    }
    r
}

/// Drops the last character of `name`; the parent of `"r"` (or of anything
/// shorter) is the empty string.
pub fn parent_node_name(name: &str) -> (r: String)
    ensures
        r@ == spec_parent_name(name@),
{
    let n = name.unicode_len();
    if n <= 1 {
        let r = String::new();
        proof {
            assert(r@ =~= spec_parent_name(name@));
        }
        r
    } else {
        name.substring_char(0, n - 1).to_owned()
    }
}

/// Joins the output directory and a node name with a `/` separator.
pub fn node_path(dir: &str, name: &str) -> (r: String)
    ensures
        r@ == spec_node_path(dir@, name@),
{
    proof {
        reveal_strlit("/");
    }
    let r = dir.to_owned().concat("/").concat(name);
    proof {
        assert(r@ =~= spec_node_path(dir@, name@));
    }
    r
}

/// Law: addressing round trip. Taking the parent of the `i`-th child of any
/// node yields that node again.
pub proof fn lemma_parent_of_child(n: Seq<char>, i: int)
    requires
        0 <= i < 8,
    ensures
        spec_parent_name(spec_child_name(n, i)) == n,
{
    let c = spec_child_name(n, i);
    if c.len() <= 1 {
        assert(n.len() == 0);
        assert(spec_parent_name(c) =~= n);
    } else {
        assert(spec_parent_name(c) =~= n);
    }
}

/// Children of well-formed names are well formed, and one character
/// longer.
pub proof fn lemma_child_name_wf(n: Seq<char>, i: int)
    requires
        0 <= i < 8,
        wf_name(n),
    ensures
        wf_name(spec_child_name(n, i)),
        spec_child_name(n, i).len() == n.len() + 1,
{
    let c = spec_child_name(n, i);
    assert(is_octant_char(octant_char(i)));
    assert forall|j: int| 1 <= j < c.len() implies is_octant_char(#[trigger] c[j]) by {
        if j < n.len() {
            assert(c[j] == n[j]);
        } else {
            assert(c[j] == octant_char(i));
        }
    }
}

} // verus!
