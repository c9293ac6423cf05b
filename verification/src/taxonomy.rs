//! The tree of all categories that are in use.
use vstd::prelude::*;

use crate::categories::{ancestors, category_ancestors, law_ancestors_lead_down, path_parts};
use crate::number::{decimal, is_digit, lemma_decimal_digits, repeated, zero_padded};
use crate::order::{key_before, lemma_key_before_one_way, text_order, Order};
use crate::parts::{
    join, join_first, law_join_then_split, law_split_parts_hold_no_separator, lemma_split_nonempty,
    split, split_at_char,
};
use crate::sorted::{
    collect, lemma_every_item_is_given, lemma_every_key_is_kept, ordered, Keyed,
};
use crate::text::{opt_text, texts, Text};
use crate::time::{
    law_time_of_point, law_years_from_1970_on, time_path_text, utc_time, TimeDepth,
};

verus! {

/// A category in the tree of its axis.
#[derive(Debug)]
pub struct CategoryNode {
    pub axis: String,
    pub path: String,
    /// The last part of the path.
    pub label: String,
    /// The path of the category above.
    pub parent_path: Option<String>,
    /// The number of categories above.
    pub depth: usize,
}

/// The values of [`CategoryNode`].
pub struct NodeView {
    pub axis: Text,
    pub path: Text,
    pub label: Text,
    pub parent_path: Option<Text>,
    pub depth: int,
}

impl View for CategoryNode {
    type V = NodeView;

    open spec fn view(&self) -> NodeView {
        NodeView {
            axis: self.axis@,
            path: self.path@,
            label: self.label@,
            parent_path: opt_text(self.parent_path),
            depth: self.depth as int,
        }
    }
}

/// The category of a path.
pub open spec fn node_of(axis: Text, path: Text) -> NodeView {
    let parts = split(path, '/');
    NodeView {
        axis,
        path,
        label: parts.last(),
        parent_path: if parts.len() > 1 {
            Some(join(parts.drop_last(), "/"@))
        } else {
            None
        },
        depth: parts.len() - 1,
    }
}

/// The category of a path.
pub fn category_node(axis: &str, path: &str) -> (r: CategoryNode)
    ensures
        r@ == node_of(axis@, path@),
{
    let parts = split_at_char(path, '/');
    proof {
        lemma_split_nonempty(path@, '/');
        assert(texts(parts@).len() == parts@.len());
        assert(texts(parts@).last() == parts@[parts@.len() - 1]@);
        assert(texts(parts@).take(parts@.len() - 1) =~= texts(parts@).drop_last());
    }
    let depth: usize = parts.len() - 1;
    let parent_path = if parts.len() > 1 {
        Some(join_first(&parts, depth, "/"))
    } else {
        None
    };
    CategoryNode {
        axis: axis.to_owned(),
        path: path.to_owned(),
        label: parts[depth].clone(),
        parent_path,
        depth,
    }
}

proof fn lemma_pair_order(a: Seq<Text>, b: Seq<Text>)
    requires
        a.len() == 2,
        b.len() == 2,
    ensures
        a[0] != b[0] ==> key_before(a, b) == crate::order::text_before(a[0], b[0]),
        a[0] == b[0] && a[1] != b[1] ==> key_before(a, b) == crate::order::text_before(a[1], b[1]),
        a[0] == b[0] && a[1] == b[1] ==> a == b,
{
    reveal_with_fuel(key_before, 3);
    assert(a.skip(1)[0] == a[1]);
    assert(b.skip(1)[0] == b[1]);
    if a[0] == b[0] && a[1] == b[1] {
        assert(a =~= b);
    }
}

impl Keyed for CategoryNode {
    open spec fn key(&self) -> Seq<Text> {
        seq![self.axis@, self.path@]
    }

    fn key_order(&self, other: &Self) -> (r: Order) {
        proof {
            lemma_pair_order(self.key(), other.key());
            lemma_pair_order(other.key(), self.key());
        }
        match text_order(self.axis.as_str(), other.axis.as_str()) {
            Order::Same => text_order(self.path.as_str(), other.path.as_str()),
            order => order,
        }
    }
}

/// The values of pairs of an axis and a path.
pub open spec fn pair_views(pairs: Seq<(String, String)>) -> Seq<(Text, Text)> {
    pairs.map_values(|p: (String, String)| (p.0@, p.1@))
}

/// The path leads down to one that is in use on the axis.
pub open spec fn in_use(used: Seq<(Text, Text)>, axis: Text, path: Text) -> bool {
    exists|i: int|
        0 <= i < used.len() && (#[trigger] used[i]).0 == axis && ancestors(used[i].1).contains(path)
}

/// The list holds the category of every path that leads down to one in use, once, in the order of
/// axes and paths, and nothing else.
pub open spec fn is_tree(nodes: Seq<CategoryNode>, used: Seq<(Text, Text)>) -> bool {
    &&& ordered(nodes)
    &&& forall|i: int|
        0 <= i < nodes.len() ==> (#[trigger] nodes[i])@ == node_of(nodes[i].axis@, nodes[i].path@)
            && in_use(used, nodes[i].axis@, nodes[i].path@)
    &&& forall|axis: Text, path: Text| #[trigger]
        in_use(used, axis, path) ==> exists|i: int|
            0 <= i < nodes.len() && (#[trigger] nodes[i]).axis@ == axis && nodes[i].path@ == path
}

/// The tree of the categories that are in use.
pub fn category_nodes(used: &[(String, String)]) -> (r: Vec<CategoryNode>)
    ensures
        is_tree(r@, pair_views(used@)),
{
    let ghost pairs = pair_views(used@);
    let mut given: Vec<CategoryNode> = Vec::new();
    let mut i: usize = 0;
    while i < used.len()
        invariant
            0 <= i <= used@.len(),
            pairs == pair_views(used@),
            forall|k: int|
                0 <= k < given@.len() ==> (#[trigger] given@[k])@ == node_of(
                    given@[k].axis@,
                    given@[k].path@,
                ) && in_use(pairs, given@[k].axis@, given@[k].path@),
            forall|p: int, n: int|
                0 <= p < i && 0 <= n < ancestors(pairs[p].1).len() ==> #[trigger] made(
                    given@,
                    pairs[p].0,
                    ancestors(pairs[p].1)[n],
                ),
        decreases used@.len() - i,
    {
        let paths = category_ancestors(used[i].1.as_str());
        let ghost all = ancestors(pairs[i as int].1);
        proof {
            assert(pairs[i as int] == (used@[i as int].0@, used@[i as int].1@));
            assert(all.len() == paths@.len());
        }
        let mut n: usize = 0;
        while n < paths.len()
            invariant
                0 <= i < used@.len(),
                0 <= n <= paths@.len(),
                pairs == pair_views(used@),
                all == ancestors(pairs[i as int].1),
                all == texts(paths@),
                pairs[i as int] == (used@[i as int].0@, used@[i as int].1@),
                forall|k: int|
                    0 <= k < given@.len() ==> (#[trigger] given@[k])@ == node_of(
                        given@[k].axis@,
                        given@[k].path@,
                    ) && in_use(pairs, given@[k].axis@, given@[k].path@),
                forall|p: int, m: int|
                    0 <= p < i && 0 <= m < ancestors(pairs[p].1).len() ==> #[trigger] made(
                        given@,
                        pairs[p].0,
                        ancestors(pairs[p].1)[m],
                    ),
                forall|m: int|
                    0 <= m < n ==> #[trigger] made(given@, pairs[i as int].0, all[m]),
            decreases paths@.len() - n,
        {
            let node = category_node(used[i].0.as_str(), paths[n].as_str());
            let ghost before = given@;
            proof {
                assert(all[n as int] == paths@[n as int]@);
                assert(all.contains(all[n as int]));
                assert(in_use(pairs, node.axis@, node.path@));
            }
            given.push(node);
            proof {
                assert forall|a: Text, b: Text| made(before, a, b) implies #[trigger] made(
                    given@,
                    a,
                    b,
                ) by {
                    let k = choose|k: int|
                        0 <= k < before.len() && (#[trigger] before[k]).axis@ == a
                            && before[k].path@ == b;
                    assert(given@[k] == before[k]);
                }
                assert(given@[before.len() as int] == node);
                assert(made(given@, pairs[i as int].0, all[n as int]));
            }
            n += 1;
        }
        i += 1;
    }
    let ghost all_given = given@;
    let nodes = collect(given);
    proof {
        assert forall|k: int| 0 <= k < nodes@.len() implies (#[trigger] nodes@[k])@ == node_of(
            nodes@[k].axis@,
            nodes@[k].path@,
        ) && in_use(pairs, nodes@[k].axis@, nodes@[k].path@) by {
            let g = lemma_every_item_is_given(nodes@, all_given, k);
            assert(all_given[g] == nodes@[k]);
        }
        assert forall|axis: Text, path: Text| #[trigger]
            in_use(pairs, axis, path) implies exists|k: int|
            0 <= k < nodes@.len() && (#[trigger] nodes@[k]).axis@ == axis && nodes@[k].path@
                == path by {
            let p = choose|p: int|
                0 <= p < pairs.len() && (#[trigger] pairs[p]).0 == axis && ancestors(
                    pairs[p].1,
                ).contains(path);
            let m = choose|m: int|
                0 <= m < ancestors(pairs[p].1).len() && ancestors(pairs[p].1)[m] == path;
            assert(made(all_given, pairs[p].0, ancestors(pairs[p].1)[m]));
            let g = choose|g: int|
                0 <= g < all_given.len() && (#[trigger] all_given[g]).axis@ == axis
                    && all_given[g].path@ == path;
            let k = lemma_every_key_is_kept(nodes@, all_given, g);
            assert(nodes@[k].key()[0] == axis && nodes@[k].key()[1] == path) by {
                assert(all_given[g].key()[0] == axis && all_given[g].key()[1] == path);
            }
        }
    }
    nodes
}

/// The list holds a category of the axis and path.
spec fn made(nodes: Seq<CategoryNode>, axis: Text, path: Text) -> bool {
    exists|k: int|
        0 <= k < nodes.len() && (#[trigger] nodes[k]).axis@ == axis && nodes[k].path@ == path
}

/// What splitting an ancestor gives: the parts down to it.
proof fn lemma_ancestor_parts(path: Text, n: int)
    requires
        0 <= n < ancestors(path).len(),
    ensures
        split(ancestors(path)[n], '/') == path_parts(path).take(n + 1),
{
    let parts = path_parts(path);
    let few = parts.take(n + 1);
    reveal_strlit("/");
    assert("/"@ =~= seq!['/']);
    law_split_parts_hold_no_separator(path, '/');
    assert forall|i: int| 0 <= i < few.len() implies !(#[trigger] few[i]).contains('/') by {
        assert(few[i] == parts[i]);
        split(path, '/').lemma_filter_contains_rev(|part: Text| part.len() > 0, parts[i]);
        let k = choose|k: int| 0 <= k < split(path, '/').len() && split(path, '/')[k] == parts[i];
        assert(!split(path, '/')[k].contains('/'));
    }
    law_join_then_split(few, '/');
}

/// The category above one in the tree is in the tree.
pub proof fn law_parent_is_in_use(used: Seq<(Text, Text)>, axis: Text, path: Text)
    requires
        in_use(used, axis, path),
        node_of(axis, path).parent_path is Some,
    ensures
        in_use(used, axis, node_of(axis, path).parent_path->0),
{
    let i = choose|i: int|
        0 <= i < used.len() && (#[trigger] used[i]).0 == axis && ancestors(used[i].1).contains(
            path,
        );
    let all = ancestors(used[i].1);
    let n = choose|n: int| 0 <= n < all.len() && all[n] == path;
    lemma_ancestor_parts(used[i].1, n);
    let parts = path_parts(used[i].1);
    assert(parts.take(n + 1).drop_last() =~= parts.take(n));
    assert(all[n - 1] == node_of(axis, path).parent_path->0);
    assert(all.contains(all[n - 1]));
}

/// A category lies one step below the one above it: its path is that of the other with its own
/// label behind it. A category with nothing above it is its own label.
pub proof fn law_path_is_parent_and_label(axis: Text, path: Text)
    ensures
        match node_of(axis, path).parent_path {
            Some(parent) => {
                &&& path == parent + "/"@ + node_of(axis, path).label
                &&& node_of(axis, path).depth == node_of(axis, parent).depth + 1
            },
            None => path == node_of(axis, path).label && node_of(axis, path).depth == 0,
        },
{
    let parts = split(path, '/');
    reveal_strlit("/");
    assert("/"@ =~= seq!['/']);
    lemma_split_nonempty(path, '/');
    crate::parts::law_split_then_join(path, '/');
    if parts.len() > 1 {
        let init = parts.drop_last();
        law_split_parts_hold_no_separator(path, '/');
        assert forall|i: int| 0 <= i < init.len() implies !(#[trigger] init[i]).contains('/') by {
            assert(init[i] == parts[i]);
        }
        law_join_then_split(init, '/');
    }
}

/// A number that is not negative is written without a separator.
proof fn lemma_number_is_a_part(n: int, width: int)
    requires
        n >= 0,
    ensures
        zero_padded(n, width).len() > 0,
        !zero_padded(n, width).contains('/'),
{
    let digits = decimal(n as nat);
    lemma_decimal_digits(n as nat);
    let s = zero_padded(n, width);
    assert forall|i: int| 0 <= i < s.len() implies s[i] != '/' by {
        let zeros = repeated('0', width - digits.len());
        if i < zeros.len() {
            assert(s[i] == '0');
        } else {
            assert(s[i] == digits[i - zeros.len()]);
            assert(is_digit(digits[i - zeros.len()]));
        }
    }
}

/// The categories of time are hierarchical: the path of an hour leads through its year, its month
/// and its day, and the path of its month is one of those above it.
pub proof fn law_time_is_hierarchical(ts: i64)
    requires
        ts >= 0,
    ensures
        ({
            let t = utc_time(ts as int);
            let year = "time"@ + "/"@ + zero_padded(t.date.year, 4);
            let month = year + "/"@ + zero_padded(t.date.month, 2);
            let day = month + "/"@ + zero_padded(t.date.day, 2);
            let hour = day + "/"@ + zero_padded(t.hour, 2);
            &&& time_path_text(ts as int, TimeDepth::Month) == month
            &&& time_path_text(ts as int, TimeDepth::Hour) == hour
            &&& ancestors(hour) == seq!["time"@, year, month, day, hour]
        }),
{
    let t = utc_time(ts as int);
    let y = zero_padded(t.date.year, 4);
    let m = zero_padded(t.date.month, 2);
    let d = zero_padded(t.date.day, 2);
    let h = zero_padded(t.hour, 2);
    law_time_of_point(ts);
    law_years_from_1970_on(ts);
    lemma_number_is_a_part(t.date.year, 4);
    lemma_number_is_a_part(t.date.month, 2);
    lemma_number_is_a_part(t.date.day, 2);
    lemma_number_is_a_part(t.hour, 2);
    reveal_strlit("time");
    reveal_strlit("/");
    reveal_strlit("time/");
    assert("/"@ =~= seq!['/']);
    assert("time"@ + "/"@ =~= "time/"@);
    let parts = seq!["time"@, y, m, d, h];
    let year = "time"@ + "/"@ + y;
    let month = year + "/"@ + m;
    let day = month + "/"@ + d;
    let hour = day + "/"@ + h;
    assert forall|i: int| 0 <= i < "time"@.len() implies "time"@[i] != '/' by {}
    assert forall|i: int| 0 <= i < parts.len() implies !(#[trigger] parts[i]).contains('/') by {}
    assert(join(parts.take(1), "/"@) == "time"@) by {
        assert(parts.take(1)[0] == "time"@);
    }
    assert(join(parts.take(2), "/"@) == year) by {
        assert(parts.take(2).drop_last() =~= parts.take(1));
    }
    assert(join(parts.take(3), "/"@) == month) by {
        assert(parts.take(3).drop_last() =~= parts.take(2));
    }
    assert(join(parts.take(4), "/"@) == day) by {
        assert(parts.take(4).drop_last() =~= parts.take(3));
    }
    assert(join(parts.take(5), "/"@) == hour) by {
        assert(parts.take(5).drop_last() =~= parts.take(4));
    }
    assert(parts.take(5) =~= parts);
    law_join_then_split(parts, '/');
    assert(split(hour, '/') == parts);
    assert(path_parts(hour) =~= parts) by {
        reveal(Seq::filter);
        let f = |part: Text| part.len() > 0;
        lemma_filter_keeps_all(parts, f);
    }
    assert(ancestors(hour) =~= seq!["time"@, year, month, day, hour]);
    assert(time_path_text(ts as int, TimeDepth::Month) =~= month);
    assert(time_path_text(ts as int, TimeDepth::Hour) =~= hour);
}

proof fn lemma_filter_keeps_all(s: Seq<Text>, f: spec_fn(Text) -> bool)
    requires
        forall|i: int| 0 <= i < s.len() ==> f(#[trigger] s[i]),
    ensures
        s.filter(f) == s,
    decreases s.len(),
{
    reveal(Seq::filter);
    if s.len() > 0 {
        let init = s.drop_last();
        assert forall|i: int| 0 <= i < init.len() implies f(#[trigger] init[i]) by {
            assert(init[i] == s[i]);
        }
        lemma_filter_keeps_all(init, f);
        assert(f(s[s.len() - 1]));
        assert(s =~= init.push(s.last()));
    }
}

/// Every category that is in use is in the tree, with the label, the category above and the depth
/// that its parts give: the last part, the parts before it, and their number.
pub proof fn law_used_categories_are_in_the_tree(
    nodes: Seq<CategoryNode>,
    used: Seq<(Text, Text)>,
    u: int,
    parts: Seq<Text>,
    n: int,
)
    requires
        is_tree(nodes, used),
        0 <= u < used.len(),
        parts.len() > 0,
        forall|i: int|
            0 <= i < parts.len() ==> (#[trigger] parts[i]).len() > 0 && !parts[i].contains('/'),
        used[u].1 == join(parts, "/"@),
        0 < n <= parts.len(),
    ensures
        exists|k: int|
            {
                &&& 0 <= k < nodes.len()
                &&& (#[trigger] nodes[k]).axis@ == used[u].0
                &&& nodes[k].path@ == join(parts.take(n), "/"@)
                &&& nodes[k].label@ == parts[n - 1]
                &&& nodes[k].depth == n - 1
                &&& n == 1 ==> nodes[k].parent_path is None
                &&& n > 1 ==> nodes[k].parent_path is Some && nodes[k].parent_path->0@ == join(
                    parts.take(n - 1),
                    "/"@,
                )
            },
{
    law_ancestors_lead_down(parts, n);
    let all = ancestors(used[u].1);
    let path = join(parts.take(n), "/"@);
    assert(all[n - 1] == path);
    assert(all.contains(path));
    assert(in_use(used, used[u].0, path));
    let k = choose|k: int|
        0 <= k < nodes.len() && (#[trigger] nodes[k]).axis@ == used[u].0 && nodes[k].path@ == path;
    assert(nodes[k]@ == node_of(nodes[k].axis@, nodes[k].path@));
    reveal_strlit("/");
    assert("/"@ =~= seq!['/']);
    let few = parts.take(n);
    assert forall|i: int| 0 <= i < few.len() implies !(#[trigger] few[i]).contains('/') by {
        assert(few[i] == parts[i]);
    }
    law_join_then_split(few, '/');
    assert(few.last() == parts[n - 1]);
    assert(few.drop_last() =~= parts.take(n - 1));
    assert(nodes[k]@.label == parts[n - 1]);
}

/// Nothing is in the tree but categories in use and those above them, and each is there once.
pub proof fn law_tree_holds_nothing_else(
    nodes: Seq<CategoryNode>,
    used: Seq<(Text, Text)>,
    k: int,
    m: int,
)
    requires
        is_tree(nodes, used),
        0 <= k < nodes.len(),
        0 <= m < nodes.len(),
        k != m,
    ensures
        exists|u: int|
            0 <= u < used.len() && (#[trigger] used[u]).0 == nodes[k].axis@ && ancestors(
                used[u].1,
            ).contains(nodes[k].path@),
        nodes[k].axis@ != nodes[m].axis@ || nodes[k].path@ != nodes[m].path@,
{
    assert(in_use(used, nodes[k].axis@, nodes[k].path@));
    assert(nodes[k].key()[0] == nodes[k].axis@ && nodes[k].key()[1] == nodes[k].path@);
    assert(nodes[m].key()[0] == nodes[m].axis@ && nodes[m].key()[1] == nodes[m].path@);
    if k < m {
        assert(key_before(nodes[k].key(), nodes[m].key()));
        lemma_key_before_one_way(nodes[k].key(), nodes[m].key());
    } else {
        assert(key_before(nodes[m].key(), nodes[k].key()));
        lemma_key_before_one_way(nodes[m].key(), nodes[k].key());
    }
    if nodes[k].axis@ == nodes[m].axis@ && nodes[k].path@ == nodes[m].path@ {
        assert(nodes[k].key() =~= nodes[m].key());
    }
}

} // verus!
