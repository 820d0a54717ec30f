//! Authored backdrops: three layer files named `<slug>.<role>` with the
//! roles `sky`, `far` and `mid`, grouped into complete backdrops.

use crate::text::{append_str, chars_of, same_text, string_of, sub_chars};
use vstd::prelude::*;

verus! {

/// One complete backdrop: its slug and, for each role, the position of
/// its layer among the layer files.
#[derive(Debug, PartialEq, Eq)]
pub struct BackdropLayers {
    pub slug: String,
    pub sky: usize,
    pub far: usize,
    pub mid: usize,
}

// ---------------------------------------------------------------------------
// Text order

/// Lexicographic order of texts by code point (`String`'s order).
pub open spec fn text_less(a: Seq<char>, b: Seq<char>) -> bool
    decreases a.len(),
{
    if a.len() == 0 {
        b.len() > 0
    } else if b.len() == 0 {
        false
    } else if a[0] != b[0] {
        (a[0] as int) < (b[0] as int)
    } else {
        text_less(a.drop_first(), b.drop_first())
    }
}

pub proof fn lemma_text_less_irreflexive(a: Seq<char>)
    ensures
        !text_less(a, a),
    decreases a.len(),
{
    if a.len() > 0 {
        lemma_text_less_irreflexive(a.drop_first());
    }
}

pub proof fn lemma_text_less_transitive(a: Seq<char>, b: Seq<char>, c: Seq<char>)
    requires
        text_less(a, b),
        text_less(b, c),
    ensures
        text_less(a, c),
    decreases a.len(),
{
    if a.len() > 0 && b.len() > 0 && c.len() > 0 && a[0] == b[0] && b[0] == c[0] {
        lemma_text_less_transitive(a.drop_first(), b.drop_first(), c.drop_first());
    }
}

pub proof fn lemma_text_less_total(a: Seq<char>, b: Seq<char>)
    ensures
        a == b || text_less(a, b) || text_less(b, a),
    decreases a.len(),
{
    if a.len() > 0 && b.len() > 0 {
        if a[0] == b[0] {
            lemma_text_less_total(a.drop_first(), b.drop_first());
            if a.drop_first() == b.drop_first() {
                assert(a =~= seq![a[0]] + a.drop_first());
                assert(b =~= seq![b[0]] + b.drop_first());
                assert(a == b);
            }
        } else {
            assert((a[0] as int) != (b[0] as int));
        }
    } else if a.len() == 0 && b.len() == 0 {
        assert(a =~= b);
    }
}

pub proof fn lemma_text_less_asymmetric(a: Seq<char>, b: Seq<char>)
    requires
        text_less(a, b),
    ensures
        !text_less(b, a),
{
    if text_less(b, a) {
        lemma_text_less_transitive(a, b, a);
        lemma_text_less_irreflexive(a);
    }
}

proof fn lemma_text_less_skip(a: Seq<char>, b: Seq<char>, i: int)
    requires
        0 <= i <= a.len(),
        i <= b.len(),
        a.take(i) == b.take(i),
    ensures
        text_less(a, b) == text_less(a.skip(i), b.skip(i)),
    decreases i,
{
    if i > 0 {
        assert(a[0] == a.take(i)[0]);
        assert(b[0] == b.take(i)[0]);
        assert(a.drop_first().take(i - 1) =~= a.take(i).drop_first());
        assert(b.drop_first().take(i - 1) =~= b.take(i).drop_first());
        lemma_text_less_skip(a.drop_first(), b.drop_first(), i - 1);
        assert(a.drop_first().skip(i - 1) =~= a.skip(i));
        assert(b.drop_first().skip(i - 1) =~= b.skip(i));
    } else {
        assert(a.skip(0) =~= a);
        assert(b.skip(0) =~= b);
    }
}

/// Executable text order.
pub fn text_lt(a: &String, b: &String) -> (r: bool)
    ensures
        r == text_less(a@, b@),
{
    let x = chars_of(a.as_str());
    let y = chars_of(b.as_str());
    let mut i: usize = 0;
    while i < x.len() && i < y.len() && x[i] == y[i]
        invariant
            x@ == a@,
            y@ == b@,
            i <= x@.len(),
            i <= y@.len(),
            x@.take(i as int) == y@.take(i as int),
        decreases x.len() - i,
    {
        assert(x@.take(i + 1) =~= x@.take(i as int).push(x@[i as int]));
        assert(y@.take(i + 1) =~= y@.take(i as int).push(y@[i as int]));
        i = i + 1;
    }
    proof {
        lemma_text_less_skip(x@, y@, i as int);
    }
    if i == x.len() {
        i < y.len()
    } else if i == y.len() {
        false
    } else {
        assert(x@.skip(i as int)[0] == x@[i as int]);
        assert(y@.skip(i as int)[0] == y@[i as int]);
        x[i] < y[i]
    }
}

// ---------------------------------------------------------------------------
// File names

/// The position of the last `.` of a name.
pub open spec fn last_dot(s: Seq<char>) -> Option<int>
    decreases s.len(),
{
    if s.len() == 0 {
        None
    } else if s.last() == '.' {
        Some(s.len() - 1)
    } else {
        last_dot(s.drop_last())
    }
}

proof fn lemma_last_dot(s: Seq<char>)
    ensures
        last_dot(s) matches Some(d) ==> 0 <= d < s.len() && s[d] == '.' && forall|j: int|
            d < j < s.len() ==> s[j] != '.',
        last_dot(s) is None ==> forall|j: int| 0 <= j < s.len() ==> s[j] != '.',
    decreases s.len(),
{
    if s.len() > 0 {
        lemma_last_dot(s.drop_last());
        assert forall|j: int| 0 <= j < s.len() - 1 implies s.drop_last()[j] == s[j] by {}
    }
}

/// The backdrop a layer file belongs to: its name before the last `.`.
pub open spec fn backdrop_of(s: Seq<char>) -> Seq<char> {
    s.take(last_dot(s)->0)
}

/// The role of a layer file: its name after the last `.`.
pub open spec fn role_of(s: Seq<char>) -> Seq<char> {
    s.skip(last_dot(s)->0 + 1)
}

/// The three layer roles.
pub open spec fn is_role(r: Seq<char>) -> bool {
    r == "sky"@ || r == "far"@ || r == "mid"@
}

/// The problem with file `i`, if any: a name without a role, an unknown
/// role, or a name used by an earlier file.
pub open spec fn file_problem(files: Seq<String>, i: int) -> Option<Seq<char>> {
    let name = files[i]@;
    match last_dot(name) {
        None => Some(
            "backdrop file '"@ + name + ".svg' is not named '<slug>.<role>.svg' (roles: sky, far, mid)"@,
        ),
        Some(d) => if !is_role(name.skip(d + 1)) {
            Some(
                "backdrop '"@ + name.take(d) + "' has unknown layer role '"@ + name.skip(d + 1)
                    + "' (roles: sky, far, mid)"@,
            )
        } else if exists|j: int| 0 <= j < i && (#[trigger] files[j])@ == name {
            Some("backdrop '"@ + name.take(d) + "' has duplicate layer role '"@ + name.skip(d + 1) + "'"@)
        } else {
            None
        },
    }
}

/// The first problem among the first `n` files.
pub open spec fn files_problem(files: Seq<String>, n: int) -> Option<Seq<char>>
    decreases n,
{
    if n <= 0 {
        None
    } else {
        match files_problem(files, n - 1) {
            Some(e) => Some(e),
            None => file_problem(files, n - 1),
        }
    }
}

/// Some file belongs to backdrop `b`.
pub open spec fn named(files: Seq<String>, b: Seq<char>) -> bool {
    exists|i: int| 0 <= i < files.len() && backdrop_of((#[trigger] files[i])@) == b
}

/// Some file is layer `r` of backdrop `b`.
pub open spec fn has_layer(files: Seq<String>, b: Seq<char>, r: Seq<char>) -> bool {
    exists|i: int| 0 <= i < files.len() && (#[trigger] files[i])@ == b + "."@ + r
}

/// Backdrop `b` lacks one of its layers.
pub open spec fn incomplete(files: Seq<String>, b: Seq<char>) -> bool {
    !has_layer(files, b, "sky"@) || !has_layer(files, b, "far"@) || !has_layer(files, b, "mid"@)
}

/// The first layer, in role order, that backdrop `b` lacks.
pub open spec fn missing_role(files: Seq<String>, b: Seq<char>) -> Seq<char> {
    if !has_layer(files, b, "sky"@) {
        "sky"@
    } else if !has_layer(files, b, "far"@) {
        "far"@
    } else {
        "mid"@
    }
}

/// The first backdrop, in name order, that lacks a layer.
pub open spec fn first_incomplete(files: Seq<String>) -> Seq<char> {
    choose|b: Seq<char>|
        named(files, b) && incomplete(files, b) && forall|c: Seq<char>|
            named(files, c) && incomplete(files, c) ==> !text_less(c, b)
}

/// The message for a backdrop that lacks a layer.
pub open spec fn missing_layer(b: Seq<char>, r: Seq<char>) -> Seq<char> {
    "backdrop '"@ + b + "' is missing layer '"@ + r + "'"@
}

/// File `i` is layer `r` of backdrop `b`.
pub open spec fn layer_at(files: Seq<String>, b: Seq<char>, r: Seq<char>, i: usize) -> bool {
    i < files.len() && files[i as int]@ == b + "."@ + r
}

/// `out` holds every backdrop the files name, once, in name order, each
/// with the positions of its three layer files.
pub open spec fn grouped(files: Seq<String>, out: Seq<BackdropLayers>) -> bool {
    &&& forall|k1: int, k2: int| 0 <= k1 < k2 < out.len() ==> text_less(#[trigger] out[k1].slug@, #[trigger] out[k2].slug@)
    &&& forall|b: Seq<char>| named(files, b) <==> exists|k: int| 0 <= k < out.len() && (#[trigger] out[k]).slug@ == b
    &&& forall|k: int|
        0 <= k < out.len() ==> {
            &&& layer_at(files, (#[trigger] out[k]).slug@, "sky"@, out[k].sky)
            &&& layer_at(files, out[k].slug@, "far"@, out[k].far)
            &&& layer_at(files, out[k].slug@, "mid"@, out[k].mid)
        }
}

/// What grouping layer files gives: the first problem with a file name;
/// else, when a backdrop lacks a layer, the first such backdrop by name and
/// its first missing role; else the complete backdrops.
pub open spec fn grouping_ok(files: Seq<String>, res: Result<Vec<BackdropLayers>, String>) -> bool {
    match files_problem(files, files.len() as int) {
        Some(e) => res matches Err(m) && m@ == e,
        None => if exists|b: Seq<char>| named(files, b) && incomplete(files, b) {
            let b = first_incomplete(files);
            res matches Err(m) && m@ == missing_layer(b, missing_role(files, b))
        } else {
            res matches Ok(out) && grouped(files, out@)
        },
    }
}

proof fn lemma_last_dot_is(s: Seq<char>, k: int)
    requires
        0 <= k < s.len(),
        s[k] == '.',
        forall|j: int| k < j < s.len() ==> s[j] != '.',
    ensures
        last_dot(s) == Some(k),
{
    lemma_last_dot(s);
    match last_dot(s) {
        Some(d) => {
            if d < k {
                assert(s[k] != '.');
            } else if d > k {
                assert(s[d] != '.');
            }
        },
        None => {
            assert(s[k] != '.');
        },
    }
}

fn split_name(name: &String) -> (r: Option<(String, String)>)
    ensures
        match last_dot(name@) {
            None => r is None,
            Some(d) => r matches Some(p) && p.0@ == name@.take(d) && p.1@ == name@.skip(d + 1),
        },
{
    let chars = chars_of(name.as_str());
    let mut d: usize = chars.len();
    while d > 0 && chars[d - 1] != '.'
        invariant
            chars@ == name@,
            d <= chars@.len(),
            forall|j: int| d <= j < chars@.len() ==> chars@[j] != '.',
        decreases d,
    {
        d = d - 1;
    }
    proof {
        lemma_last_dot(name@);
    }
    if d == 0 {
        proof {
            if let Some(k) = last_dot(name@) {
                assert(chars@[k] != '.');
            }
        }
        return None;
    }
    proof {
        lemma_last_dot_is(name@, d - 1);
    }
    let backdrop = sub_chars(&chars, 0, d - 1);
    let role = sub_chars(&chars, d, chars.len());
    assert(backdrop@ == name@.take(d - 1));
    assert(role@ == name@.skip(d as int));
    Some((string_of(&backdrop), string_of(&role)))
}

#[verifier::loop_isolation(false)]
fn file_check(files: &[String], i: usize) -> (r: Option<String>)
    requires
        i < files@.len(),
    ensures
        match file_problem(files@, i as int) {
            None => r is None,
            Some(e) => r matches Some(m) && m@ == e,
        },
{
    let name = &files[i];
    let (backdrop, role) = match split_name(name) {
        None => {
            let mut m = String::new();
            append_str(&mut m, "backdrop file '");
            append_str(&mut m, name.as_str());
            append_str(&mut m, ".svg' is not named '<slug>.<role>.svg' (roles: sky, far, mid)");
            return Some(m);
        },
        Some(p) => p,
    };
    if !(same_text(role.as_str(), "sky") || same_text(role.as_str(), "far") || same_text(role.as_str(), "mid")) {
        let mut m = String::new();
        append_str(&mut m, "backdrop '");
        append_str(&mut m, backdrop.as_str());
        append_str(&mut m, "' has unknown layer role '");
        append_str(&mut m, role.as_str());
        append_str(&mut m, "' (roles: sky, far, mid)");
        return Some(m);
    }
    let mut j: usize = 0;
    while j < i
        invariant
            j <= i < files@.len(),
            name@ == files@[i as int]@,
            forall|k: int| 0 <= k < j ==> (#[trigger] files@[k])@ != name@,
        decreases i - j,
    {
        if files[j] == *name {
            assert(files@[j as int]@ == files@[i as int]@);
            let mut m = String::new();
            append_str(&mut m, "backdrop '");
            append_str(&mut m, backdrop.as_str());
            append_str(&mut m, "' has duplicate layer role '");
            append_str(&mut m, role.as_str());
            append_str(&mut m, "'");
            return Some(m);
        }
        j = j + 1;
    }
    None
}

proof fn lemma_files_problem_prefix(files: Seq<String>, k: int, n: int)
    requires
        0 <= k <= n,
        files_problem(files, k) is Some,
    ensures
        files_problem(files, n) == files_problem(files, k),
    decreases n - k,
{
    if k < n {
        lemma_files_problem_prefix(files, k, n - 1);
    }
}

/// Facts about files that passed the name checks: every name splits into
/// a backdrop and a role, and no name repeats.
proof fn lemma_clean_files(files: Seq<String>, n: int)
    requires
        0 <= n <= files.len(),
        files_problem(files, n) is None,
    ensures
        forall|i: int| 0 <= i < n ==> last_dot((#[trigger] files[i])@) is Some && is_role(role_of(files[i]@)),
        forall|i: int, j: int| 0 <= i < j < n ==> (#[trigger] files[i])@ != (#[trigger] files[j])@,
    decreases n,
{
    if n > 0 {
        lemma_clean_files(files, n - 1);
        assert(file_problem(files, n - 1) is None);
    }
}

fn check_names(names: &[String]) -> (r: Result<(), String>)
    ensures
        match files_problem(names@, names@.len() as int) {
            None => r is Ok,
            Some(e) => r matches Err(m) && m@ == e,
        },
{
    let mut i: usize = 0;
    while i < names.len()
        invariant
            i <= names@.len(),
            files_problem(names@, i as int) is None,
        decreases names.len() - i,
    {
        match file_check(names, i) {
            Some(m) => {
                proof {
                    lemma_files_problem_prefix(names@, i + 1, names@.len() as int);
                }
                return Err(m);
            },
            None => {},
        }
        i = i + 1;
    }
    Ok(())
}

/// The backdrop file `i` belongs to.
spec fn backdrop_at(names: Seq<String>, i: int) -> Seq<char> {
    backdrop_of(names[i]@)
}

/// The backdrops the first `k` files name, each once, by ascending name.
spec fn sorted_names(names: Seq<String>, k: int, list: Seq<String>) -> bool {
    &&& forall|a: int, c: int| 0 <= a < c < list.len() ==> text_less(#[trigger] list[a]@, #[trigger] list[c]@)
    &&& forall|a: int| 0 <= a < list.len() ==> exists|i: int| 0 <= i < k && backdrop_of(names[i]@) == (#[trigger] list[a])@
    &&& forall|i: int| 0 <= i < k ==> exists|a: int| 0 <= a < list.len() && list[a]@ == #[trigger] backdrop_at(names, i)
}

proof fn lemma_name_known(names: Seq<String>, k: int, list: Seq<String>, pos: int)
    requires
        0 <= k < names.len(),
        sorted_names(names, k, list),
        0 <= pos < list.len(),
        list[pos]@ == backdrop_of(names[k]@),
    ensures
        sorted_names(names, k + 1, list),
{
    assert forall|a: int| 0 <= a < list.len() implies exists|i: int|
        0 <= i < k + 1 && backdrop_of(names[i]@) == (#[trigger] list[a])@ by {
        let i = choose|i: int| 0 <= i < k && backdrop_of(names[i]@) == list[a]@;
    }
    assert forall|i: int| 0 <= i < k + 1 implies exists|a: int|
        0 <= a < list.len() && list[a]@ == #[trigger] backdrop_at(names, i) by {
        if i == k {
            assert(list[pos]@ == backdrop_at(names, i));
        } else {
            assert(backdrop_at(names, i) == backdrop_at(names, i));
        }
    }
}

proof fn lemma_name_inserted(names: Seq<String>, k: int, before: Seq<String>, pos: int, after: Seq<String>)
    requires
        0 <= k < names.len(),
        sorted_names(names, k, before),
        0 <= pos <= before.len(),
        forall|a: int| 0 <= a < pos ==> text_less((#[trigger] before[a])@, backdrop_of(names[k]@)),
        pos < before.len() ==> text_less(backdrop_of(names[k]@), before[pos]@),
        after.len() == before.len() + 1,
        after[pos]@ == backdrop_of(names[k]@),
        forall|a: int| 0 <= a < pos ==> after[a] == before[a],
        forall|a: int| pos < a < after.len() ==> after[a] == before[a - 1],
    ensures
        sorted_names(names, k + 1, after),
{
    let bb = backdrop_of(names[k]@);
    assert forall|a: int, c: int| 0 <= a < c < after.len() implies text_less(#[trigger] after[a]@, #[trigger] after[c]@) by {
        if c < pos {
            assert(text_less(before[a]@, before[c]@));
        } else if c == pos {
            assert(text_less(before[a]@, bb));
        } else if a < pos {
            assert(text_less(before[a]@, bb));
            if c - 1 == pos {
                assert(text_less(bb, before[pos]@));
            } else {
                assert(text_less(before[pos]@, before[c - 1]@));
                lemma_text_less_transitive(bb, before[pos]@, before[c - 1]@);
            }
            lemma_text_less_transitive(before[a]@, bb, before[c - 1]@);
        } else if a == pos {
            if c - 1 > pos {
                assert(text_less(before[pos]@, before[c - 1]@));
                lemma_text_less_transitive(bb, before[pos]@, before[c - 1]@);
            }
        } else {
            assert(text_less(before[a - 1]@, before[c - 1]@));
        }
    }
    assert forall|a: int| 0 <= a < after.len() implies exists|i: int|
        0 <= i < k + 1 && backdrop_of(names[i]@) == (#[trigger] after[a])@ by {
        if a == pos {
            assert(backdrop_of(names[k]@) == after[a]@);
        } else {
            let a0 = if a < pos { a } else { a - 1 };
            assert(after[a] == before[a0]);
            let i = choose|i: int| 0 <= i < k && backdrop_of(names[i]@) == before[a0]@;
            assert(backdrop_of(names[i]@) == after[a]@);
        }
    }
    assert forall|i: int| 0 <= i < k + 1 implies exists|a: int|
        0 <= a < after.len() && after[a]@ == #[trigger] backdrop_at(names, i) by {
        if i == k {
            assert(after[pos]@ == backdrop_at(names, i));
        } else {
            assert(backdrop_at(names, i) == backdrop_at(names, i));
            let a0 = choose|a: int| 0 <= a < before.len() && before[a]@ == backdrop_at(names, i);
            if a0 < pos {
                assert(after[a0] == before[a0]);
            } else {
                assert(after[a0 + 1] == before[a0]);
            }
        }
    }
}

fn backdrop_names(names: &[String]) -> (list: Vec<String>)
    requires
        files_problem(names@, names@.len() as int) is None,
    ensures
        sorted_names(names@, names@.len() as int, list@),
{
    proof {
        lemma_clean_files(names@, names@.len() as int);
    }
    let mut list: Vec<String> = Vec::new();
    let mut k: usize = 0;
    while k < names.len()
        invariant
            k <= names@.len(),
            forall|i: int| 0 <= i < names@.len() ==> last_dot((#[trigger] names@[i])@) is Some,
            sorted_names(names@, k as int, list@),
        decreases names.len() - k,
    {
        let parts = split_name(&names[k]);
        let (b, _role) = parts.unwrap();
        assert(b@ == backdrop_of(names@[k as int]@));
        let mut pos: usize = 0;
        while pos < list.len() && text_lt(&list[pos], &b)
            invariant
                pos <= list@.len(),
                forall|a: int| 0 <= a < pos ==> text_less((#[trigger] list@[a])@, b@),
            decreases list.len() - pos,
        {
            pos = pos + 1;
        }
        let ghost before = list@;
        if pos < list.len() && list[pos] == b {
            proof {
                lemma_name_known(names@, k as int, list@, pos as int);
            }
        } else {
            proof {
                if pos < list.len() {
                    lemma_text_less_total(b@, list@[pos as int]@);
                }
            }
            list.insert(pos, b);
            proof {
                lemma_name_inserted(names@, k as int, before, pos as int, list@);
            }
        }
        k = k + 1;
    }
    list
}

fn find_name(names: &[String], target: &String) -> (r: Option<usize>)
    ensures
        match r {
            Some(i) => i < names@.len() && names@[i as int]@ == target@,
            None => forall|i: int| 0 <= i < names@.len() ==> (#[trigger] names@[i])@ != target@,
        },
{
    let mut i: usize = 0;
    while i < names.len()
        invariant
            i <= names@.len(),
            forall|j: int| 0 <= j < i ==> (#[trigger] names@[j])@ != target@,
        decreases names.len() - i,
    {
        if names[i] == *target {
            return Some(i);
        }
        i = i + 1;
    }
    None
}

fn layer_name(b: &String, role: &str) -> (n: String)
    ensures
        n@ == b@ + "."@ + role@,
{
    let mut n = b.clone();
    append_str(&mut n, ".");
    append_str(&mut n, role);
    n
}

/// `b` is the backdrop `first_incomplete` picks when it is named, lacks a
/// layer, and every named backdrop before it in name order is complete.
proof fn lemma_first_incomplete_is(names: Seq<String>, b: Seq<char>)
    requires
        named(names, b),
        incomplete(names, b),
        forall|c: Seq<char>| named(names, c) && incomplete(names, c) ==> !text_less(c, b),
    ensures
        first_incomplete(names) == b,
{
    let f = first_incomplete(names);
    assert(named(names, f) && incomplete(names, f) && forall|c: Seq<char>|
        named(names, c) && incomplete(names, c) ==> !text_less(c, f));
    lemma_text_less_total(f, b);
}

/// Group layer files, named `<slug>.<role>`, into complete backdrops:
/// refuses a name without a role, an unknown role and a repeated name, in
/// file order; then a backdrop that lacks a layer, the first by name; else
/// gives every backdrop once, by name, with the positions of its layers.
#[verifier::loop_isolation(false)]
pub fn group_layers(names: &[String]) -> (res: Result<Vec<BackdropLayers>, String>)
    ensures
        grouping_ok(names@, res),
{
    check_names(names)?;
    let list = backdrop_names(names);
    let ghost all = names@;
    let mut out: Vec<BackdropLayers> = Vec::new();
    let mut k: usize = 0;
    while k < list.len()
        invariant
            k <= list@.len(),
            all == names@,
            sorted_names(all, all.len() as int, list@),
            files_problem(all, all.len() as int) is None,
            out@.len() == k,
            forall|j: int|
                0 <= j < k ==> {
                    &&& (#[trigger] out@[j]).slug@ == list@[j]@
                    &&& layer_at(all, out@[j].slug@, "sky"@, out@[j].sky)
                    &&& layer_at(all, out@[j].slug@, "far"@, out@[j].far)
                    &&& layer_at(all, out@[j].slug@, "mid"@, out@[j].mid)
                },
        decreases list.len() - k,
    {
        let b = &list[k];
        let sky = find_name(names, &layer_name(b, "sky"));
        let far = find_name(names, &layer_name(b, "far"));
        let mid = find_name(names, &layer_name(b, "mid"));
        if sky.is_none() || far.is_none() || mid.is_none() {
            let role = if sky.is_none() {
                "sky"
            } else if far.is_none() {
                "far"
            } else {
                "mid"
            };
            let mut m = String::new();
            append_str(&mut m, "backdrop '");
            append_str(&mut m, b.as_str());
            append_str(&mut m, "' is missing layer '");
            append_str(&mut m, role);
            append_str(&mut m, "'");
            proof {
                assert(named(all, b@)) by {
                    let i = choose|i: int| 0 <= i < all.len() && backdrop_of(all[i]@) == list@[k as int]@;
                    assert(backdrop_of(all[i]@) == b@);
                }
                assert(incomplete(all, b@));
                assert forall|c: Seq<char>| named(all, c) && incomplete(all, c) implies !text_less(c, b@) by {
                    let i = choose|i: int| 0 <= i < all.len() && backdrop_of((#[trigger] all[i])@) == c;
                    assert(backdrop_at(all, i) == c);
                    let a = choose|a: int| 0 <= a < list@.len() && list@[a]@ == backdrop_at(all, i);
                    if a < k {
                        let o = out@[a];
                        assert(has_layer(all, c, "sky"@)) by {
                            assert(all[o.sky as int]@ == c + "."@ + "sky"@);
                        }
                        assert(has_layer(all, c, "far"@)) by {
                            assert(all[o.far as int]@ == c + "."@ + "far"@);
                        }
                        assert(has_layer(all, c, "mid"@)) by {
                            assert(all[o.mid as int]@ == c + "."@ + "mid"@);
                        }
                    } else if a > k {
                        assert(text_less(list@[k as int]@, list@[a]@));
                        lemma_text_less_asymmetric(b@, c);
                    } else {
                        lemma_text_less_irreflexive(c);
                    }
                }
                lemma_first_incomplete_is(all, b@);
                if sky is Some {
                    assert(has_layer(all, b@, "sky"@)) by {
                        assert(all[sky->0 as int]@ == b@ + "."@ + "sky"@);
                    }
                }
                if far is Some {
                    assert(has_layer(all, b@, "far"@)) by {
                        assert(all[far->0 as int]@ == b@ + "."@ + "far"@);
                    }
                }
            }
            return Err(m);
        }
        out.push(BackdropLayers { slug: b.clone(), sky: sky.unwrap(), far: far.unwrap(), mid: mid.unwrap() });
        k = k + 1;
    }
    proof {
        assert forall|b: Seq<char>| named(all, b) implies !incomplete(all, b) by {
            let i = choose|i: int| 0 <= i < all.len() && backdrop_of((#[trigger] all[i])@) == b;
            assert(backdrop_at(all, i) == b);
            let a = choose|a: int| 0 <= a < list@.len() && list@[a]@ == backdrop_at(all, i);
            let o = out@[a];
            assert(all[o.sky as int]@ == b + "."@ + "sky"@);
            assert(all[o.far as int]@ == b + "."@ + "far"@);
            assert(all[o.mid as int]@ == b + "."@ + "mid"@);
        }
        assert forall|b: Seq<char>| named(all, b) <==> exists|k: int| 0 <= k < out@.len() && (#[trigger] out@[k]).slug@ == b by {
            if named(all, b) {
                let i = choose|i: int| 0 <= i < all.len() && backdrop_of((#[trigger] all[i])@) == b;
                assert(backdrop_at(all, i) == b);
                let a = choose|a: int| 0 <= a < list@.len() && list@[a]@ == backdrop_at(all, i);
                assert(out@[a].slug@ == b);
            }
            if exists|k: int| 0 <= k < out@.len() && (#[trigger] out@[k]).slug@ == b {
                let k = choose|k: int| 0 <= k < out@.len() && (#[trigger] out@[k]).slug@ == b;
                let i = choose|i: int| 0 <= i < all.len() && backdrop_of(all[i]@) == list@[k]@;
                assert(backdrop_of(all[i]@) == b);
            }
        }
        assert forall|k1: int, k2: int| 0 <= k1 < k2 < out@.len() implies text_less(#[trigger] out@[k1].slug@, #[trigger] out@[k2].slug@) by {
            assert(text_less(list@[k1]@, list@[k2]@));
        }
    }
    Ok(out)
}

} // verus!
