//! Suggestions for a command that was mistyped.

use crate::style::{paint, painted, Colour};
use crate::text::{chars_of, lowered, starts_with, texts, to_ascii_lowercase};
use vstd::prelude::*;

verus! {

/// The least of three numbers.
pub open spec fn least(a: nat, b: nat, c: nat) -> nat {
    if a <= b && a <= c {
        a
    } else if b <= c {
        b
    } else {
        c
    }
}

/// The cost of putting `y` in the place of `x`.
pub open spec fn replacement_cost(x: char, y: char) -> nat {
    if x == y {
        0
    } else {
        1
    }
}

/// The Levenshtein distance of two texts.
pub open spec fn distance(a: Seq<char>, b: Seq<char>) -> nat
    decreases a.len() + b.len(),
{
    if a.len() == 0 {
        b.len()
    } else if b.len() == 0 {
        a.len()
    } else {
        least(
            distance(a.drop_last(), b) + 1,
            distance(a, b.drop_last()) + 1,
            distance(a.drop_last(), b.drop_last()) + replacement_cost(a.last(), b.last()),
        )
    }
}

/// The distance of two texts lies between the difference of their lengths and the greater length.
pub proof fn distance_is_bounded(a: Seq<char>, b: Seq<char>)
    ensures
        a.len() - b.len() <= distance(a, b),
        b.len() - a.len() <= distance(a, b),
        distance(a, b) <= a.len() || distance(a, b) <= b.len(),
    decreases a.len() + b.len(),
{
    if a.len() > 0 && b.len() > 0 {
        distance_is_bounded(a.drop_last(), b);
        distance_is_bounded(a, b.drop_last());
        distance_is_bounded(a.drop_last(), b.drop_last());
    }
}

/// The distance is the same in both directions.
pub proof fn distance_is_symmetric(a: Seq<char>, b: Seq<char>)
    ensures
        distance(a, b) == distance(b, a),
    decreases a.len() + b.len(),
{
    if a.len() > 0 && b.len() > 0 {
        distance_is_symmetric(a.drop_last(), b);
        distance_is_symmetric(a, b.drop_last());
        distance_is_symmetric(a.drop_last(), b.drop_last());
    }
}

/// Only equal texts have no distance.
pub proof fn distance_is_zero_for_equal_texts_only(a: Seq<char>, b: Seq<char>)
    ensures
        distance(a, b) == 0 <==> a == b,
    decreases a.len() + b.len(),
{
    if a.len() > 0 && b.len() > 0 {
        distance_is_zero_for_equal_texts_only(a.drop_last(), b.drop_last());
        if distance(a, b) == 0 {
            assert(a =~= a.drop_last().push(a.last()));
            assert(b =~= b.drop_last().push(b.last()));
        }
    } else if a.len() == 0 && b.len() == 0 {
        assert(a =~= b);
    }
}

/// A detour is never shorter.
pub proof fn distance_obeys_triangle_inequality(a: Seq<char>, b: Seq<char>, c: Seq<char>)
    ensures
        distance(a, c) <= distance(a, b) + distance(b, c),
    decreases a.len() + b.len() + c.len(),
{
    distance_is_bounded(a, b);
    distance_is_bounded(b, c);
    distance_is_bounded(a, c);
    if a.len() > 0 && c.len() > 0 {
        distance_obeys_triangle_inequality(a.drop_last(), b, c);
        distance_obeys_triangle_inequality(a, b, c.drop_last());
        if b.len() > 0 {
            distance_obeys_triangle_inequality(a, b.drop_last(), c);
            distance_obeys_triangle_inequality(a, b.drop_last(), c.drop_last());
            distance_obeys_triangle_inequality(a.drop_last(), b.drop_last(), c);
            distance_obeys_triangle_inequality(a.drop_last(), b.drop_last(), c.drop_last());
        }
    }
}

/// Computes the Levenshtein distance of two texts.
pub fn levenshtein(a: &str, b: &str) -> (r: usize)
    ensures
        r == distance(a@, b@),
{
    let a_chars = chars_of(a);
    let b_chars = chars_of(b);
    let n: usize = a_chars.len();
    let m: usize = b_chars.len();
    let mut costs: Vec<usize> = Vec::new();
    while costs.len() < m
        invariant
            costs@.len() <= m,
            forall|j: int| 0 <= j < costs@.len() ==> #[trigger] costs@[j] == j,
        decreases m - costs@.len(),
    {
        let next: usize = costs.len();
        costs.push(next);
    }
    costs.push(m);
    let width: usize = costs.len();
    let mut i: usize = 0;
    while i < n
        invariant
            i <= n == a_chars@.len(),
            a_chars@ == a@,
            b_chars@ == b@,
            m == b@.len(),
            costs@.len() == m + 1 == width,
            forall|j: int|
                0 <= j <= m ==> #[trigger] costs@[j] == distance(a@.take(i as int), b@.take(j)),
        decreases n - i,
    {
        let ghost row = a@.take(i as int);
        let ghost next_row = a@.take(i + 1);
        assert(next_row.drop_last() =~= row);
        assert(next_row.last() == a@[i as int]);
        let ca = a_chars[i];
        let mut prev_diag: usize = costs[0];
        costs.set(0, i + 1);
        let mut j: usize = 0;
        assert(costs@[0] == distance(next_row, b@.take(0)));
        while j < m
            invariant
                j <= m,
                i < n == a_chars@.len(),
                a_chars@ == a@,
                b_chars@ == b@,
                ca == a@[i as int],
                m == b@.len(),
                costs@.len() == m + 1 == width,
                row == a@.take(i as int),
                next_row == a@.take(i + 1),
                next_row.drop_last() == row,
                next_row.last() == ca,
                prev_diag == distance(row, b@.take(j as int)),
                forall|k: int|
                    0 <= k <= j ==> #[trigger] costs@[k] == distance(next_row, b@.take(k)),
                forall|k: int| j < k <= m ==> #[trigger] costs@[k] == distance(row, b@.take(k)),
            decreases m - j,
        {
            let ghost column = b@.take(j + 1);
            assert(column.drop_last() =~= b@.take(j as int));
            assert(column.last() == b@[j as int]);
            proof {
                distance_is_bounded(row, column);
                distance_is_bounded(next_row, b@.take(j as int));
                distance_is_bounded(row, b@.take(j as int));
            }
            let above: usize = costs[j + 1];
            let nearer: usize = if costs[j] < above {
                costs[j]
            } else {
                above
            };
            let replaced: usize = if ca != b_chars[j] {
                prev_diag + 1
            } else {
                prev_diag
            };
            let best: usize = if replaced <= nearer {
                replaced
            } else {
                nearer + 1
            };
            costs.set(j + 1, best);
            prev_diag = above;
            j += 1;
        }
        i += 1;
    }
    assert(a@.take(i as int) =~= a@);
    assert(b@.take(m as int) =~= b@);
    costs[m]
}

/// Whether `b` is `a` with one character inserted.
pub open spec fn one_inserted(a: Seq<char>, b: Seq<char>) -> bool {
    exists|i: int, c: char| 0 <= i <= a.len() && b == #[trigger] a.insert(i, c)
}

/// Whether `b` is `a` with one character replaced.
pub open spec fn one_replaced(a: Seq<char>, b: Seq<char>) -> bool {
    exists|i: int, c: char| 0 <= i < a.len() && b == #[trigger] a.update(i, c)
}

/// Whether `b` is `a` with one character inserted, deleted or replaced.
pub open spec fn one_edit(a: Seq<char>, b: Seq<char>) -> bool {
    one_inserted(a, b) || one_inserted(b, a) || one_replaced(a, b)
}

/// Whether `path` leads from `a` to `b` by one edit at a time.
pub open spec fn is_edit_path(path: Seq<Seq<char>>, a: Seq<char>, b: Seq<char>) -> bool {
    &&& path.len() > 0
    &&& path[0] == a
    &&& path.last() == b
    &&& forall|k: int| 0 < k < path.len() ==> one_edit(path[k - 1], #[trigger] path[k])
}

proof fn lemma_common_ending(a: Seq<char>, b: Seq<char>, ending: Seq<char>)
    ensures
        distance(a + ending, b + ending) <= distance(a, b),
    decreases ending.len(),
{
    if ending.len() == 0 {
        assert(a + ending =~= a);
        assert(b + ending =~= b);
    } else {
        lemma_common_ending(a, b, ending.drop_last());
        assert((a + ending).drop_last() =~= a + ending.drop_last());
        assert((b + ending).drop_last() =~= b + ending.drop_last());
        assert((a + ending).last() == (b + ending).last());
    }
}

proof fn lemma_insertion_distance(a: Seq<char>, i: int, c: char)
    requires
        0 <= i <= a.len(),
    ensures
        distance(a, a.insert(i, c)) <= 1,
        distance(a.insert(i, c), a) <= 1,
{
    let front = a.take(i);
    distance_is_zero_for_equal_texts_only(front, front);
    assert(front.push(c).drop_last() =~= front);
    assert(distance(front, front.push(c)) <= 1);
    lemma_common_ending(front, front.push(c), a.skip(i));
    assert(front + a.skip(i) =~= a);
    assert(front.push(c) + a.skip(i) =~= a.insert(i, c));
    distance_is_symmetric(a, a.insert(i, c));
}

proof fn lemma_edit_distance(a: Seq<char>, b: Seq<char>)
    requires
        one_edit(a, b),
    ensures
        distance(a, b) <= 1,
{
    if one_inserted(a, b) {
        let (i, c) = choose|i: int, c: char| 0 <= i <= a.len() && b == #[trigger] a.insert(i, c);
        lemma_insertion_distance(a, i, c);
    } else if one_inserted(b, a) {
        let (i, c) = choose|i: int, c: char| 0 <= i <= b.len() && a == #[trigger] b.insert(i, c);
        lemma_insertion_distance(b, i, c);
    } else {
        let (i, c) = choose|i: int, c: char| 0 <= i < a.len() && b == #[trigger] a.update(i, c);
        let front = a.take(i);
        let old_front = front.push(a[i]);
        let new_front = front.push(c);
        distance_is_zero_for_equal_texts_only(front, front);
        assert(old_front.drop_last() =~= front);
        assert(new_front.drop_last() =~= front);
        assert(distance(old_front, new_front) <= 1);
        lemma_common_ending(old_front, new_front, a.skip(i + 1));
        assert(old_front + a.skip(i + 1) =~= a);
        assert(new_front + a.skip(i + 1) =~= b);
    }
}

/// No series of single edits that leads from one text to the other is shorter than their distance.
pub proof fn no_edit_path_is_shorter(path: Seq<Seq<char>>, a: Seq<char>, b: Seq<char>)
    requires
        is_edit_path(path, a, b),
    ensures
        distance(a, b) <= path.len() - 1,
    decreases path.len(),
{
    if path.len() == 1 {
        distance_is_zero_for_equal_texts_only(a, b);
    } else {
        let shorter = path.drop_last();
        assert forall|k: int| 0 < k < shorter.len() implies one_edit(
            shorter[k - 1],
            #[trigger] shorter[k],
        ) by {
            assert(one_edit(path[k - 1], path[k]));
        }
        no_edit_path_is_shorter(shorter, a, shorter.last());
        assert(one_edit(path[path.len() - 2], path[path.len() - 1]));
        lemma_edit_distance(shorter.last(), b);
        distance_obeys_triangle_inequality(a, shorter.last(), b);
    }
}

proof fn lemma_edit_before_last(a: Seq<char>, b: Seq<char>, c: char)
    requires
        one_edit(a, b),
    ensures
        one_edit(a.push(c), b.push(c)),
{
    if one_inserted(a, b) {
        let (i, x) = choose|i: int, x: char| 0 <= i <= a.len() && b == #[trigger] a.insert(i, x);
        assert(b.push(c) =~= a.push(c).insert(i, x));
    } else if one_inserted(b, a) {
        let (i, x) = choose|i: int, x: char| 0 <= i <= b.len() && a == #[trigger] b.insert(i, x);
        assert(a.push(c) =~= b.push(c).insert(i, x));
    } else {
        let (i, x) = choose|i: int, x: char| 0 <= i < a.len() && b == #[trigger] a.update(i, x);
        assert(b.push(c) =~= a.push(c).update(i, x));
    }
}

/// Some series of single edits that leads from one text to the other is as short as their
/// distance.
pub proof fn an_edit_path_is_as_short(a: Seq<char>, b: Seq<char>) -> (path: Seq<Seq<char>>)
    ensures
        is_edit_path(path, a, b),
        path.len() - 1 == distance(a, b),
    decreases a.len() + b.len(),
{
    if a.len() == 0 && b.len() == 0 {
        assert(a =~= b);
        seq![a]
    } else if a.len() > 0 && (b.len() == 0 || distance(a, b) == distance(a.drop_last(), b) + 1) {
        let rest = an_edit_path_is_as_short(a.drop_last(), b);
        let path = seq![a] + rest;
        assert(a =~= a.drop_last().insert(a.len() - 1, a.last()));
        assert(one_inserted(a.drop_last(), a));
        assert forall|k: int| 0 < k < path.len() implies one_edit(path[k - 1], #[trigger] path[k]) by {
            if k > 1 {
                assert(one_edit(rest[k - 2], rest[k - 1]));
            }
        }
        path
    } else if b.len() > 0 && (a.len() == 0 || distance(a, b) == distance(a, b.drop_last()) + 1) {
        let rest = an_edit_path_is_as_short(a, b.drop_last());
        let path = rest.push(b);
        assert(b =~= b.drop_last().insert(b.len() - 1, b.last()));
        assert(one_inserted(b.drop_last(), b));
        assert forall|k: int| 0 < k < path.len() implies one_edit(path[k - 1], #[trigger] path[k]) by {
            if k < rest.len() {
                assert(one_edit(rest[k - 1], rest[k]));
            }
        }
        path
    } else {
        let rest = an_edit_path_is_as_short(a.drop_last(), b.drop_last());
        let last = b.last();
        let ended = rest.map_values(|t: Seq<char>| t.push(last));
        assert forall|k: int| 0 < k < ended.len() implies one_edit(
            ended[k - 1],
            #[trigger] ended[k],
        ) by {
            assert(one_edit(rest[k - 1], rest[k]));
            lemma_edit_before_last(rest[k - 1], rest[k], last);
        }
        assert(ended.last() =~= b);
        if a.last() == last {
            assert(ended[0] =~= a);
            ended
        } else {
            let path = seq![a] + ended;
            assert(ended[0] =~= a.update(a.len() - 1, last));
            assert(one_replaced(a, ended[0]));
            assert forall|k: int| 0 < k < path.len() implies one_edit(
                path[k - 1],
                #[trigger] path[k],
            ) by {
                if k > 1 {
                    assert(one_edit(ended[k - 2], ended[k - 1]));
                }
            }
            path
        }
    }
}

/// The commands that can be suggested.
pub open spec fn known_commands() -> Seq<Seq<char>> {
    seq![
        "install"@,
        "update"@,
        "upgrade"@,
        "search"@,
        "info"@,
        "uninstall"@,
        "list"@,
        "doctor"@,
        "clean"@,
        "help"@,
    ]
}

/// The texts that a list of string slices holds.
pub open spec fn slice_texts(v: Seq<&'static str>) -> Seq<Seq<char>> {
    Seq::new(v.len(), |i: int| v[i]@)
}

fn command_names() -> (r: Vec<&'static str>)
    ensures
        slice_texts(r@) == known_commands(),
{
    let r = vec![
        "install",
        "update",
        "upgrade",
        "search",
        "info",
        "uninstall",
        "list",
        "doctor",
        "clean",
        "help",
    ];
    assert(slice_texts(r@) =~= known_commands());
    r
}

/// Whether known command `k` is the closest to `input`, and the first of those that are as close.
pub open spec fn is_closest(input: Seq<char>, k: int) -> bool {
    &&& 0 <= k < known_commands().len()
    &&& forall|j: int|
        0 <= j < known_commands().len() ==> distance(input, known_commands()[k]) <= distance(
            input,
            #[trigger] known_commands()[j],
        )
    &&& forall|j: int|
        0 <= j < k ==> distance(input, known_commands()[k]) < distance(
            input,
            #[trigger] known_commands()[j],
        )
}

/// Whether `command` is near enough to `input` to be suggested.
pub open spec fn is_near(input: Seq<char>, command: Seq<char>) -> bool {
    ||| distance(input, command) <= 3
    ||| input.is_prefix_of(command)
    ||| command.is_prefix_of(input)
}

/// The suggestion for `input`, if the closest command is known command `k`.
pub open spec fn suggestion(input: Seq<char>, k: int) -> Option<Seq<char>> {
    if is_near(input, known_commands()[k]) {
        Some(known_commands()[k])
    } else {
        None
    }
}

/// Whether `answer` is what is suggested for `input`, letter case aside.
pub open spec fn suggests(input: Seq<char>, answer: Option<Seq<char>>) -> bool {
    exists|k: int|
        #![trigger known_commands()[k]]
        is_closest(lowered(input), k) && answer == suggestion(lowered(input), k)
}

/// The text of an optional string slice.
pub open spec fn optional_slice(s: Option<&str>) -> Option<Seq<char>> {
    match s {
        Some(t) => Some(t@),
        None => None,
    }
}

/// Suggests a command for what the user typed: the known command that is closest to it, letter
/// case aside, if it is near enough.
pub fn suggest_command(input: &str) -> (r: Option<&'static str>)
    ensures
        suggests(input@, optional_slice(r)),
{
    let typed = to_ascii_lowercase(input);
    let names = command_names();
    let mut best: usize = 0;
    assert(slice_texts(names@).len() == names@.len());
    assert(slice_texts(names@)[0] == names@[0]@);
    let mut best_distance: usize = levenshtein(typed.as_str(), names[0]);
    let mut i: usize = 1;
    while i < names.len()
        invariant
            slice_texts(names@) == known_commands(),
            best < i <= names@.len(),
            best_distance == distance(typed@, known_commands()[best as int]),
            forall|j: int|
                0 <= j < i ==> best_distance <= distance(typed@, #[trigger] known_commands()[j]),
            forall|j: int|
                0 <= j < best ==> best_distance < distance(typed@, #[trigger] known_commands()[j]),
        decreases names@.len() - i,
    {
        assert(slice_texts(names@)[i as int] == names@[i as int]@);
        let d: usize = levenshtein(typed.as_str(), names[i]);
        if d < best_distance {
            best = i;
            best_distance = d;
        }
        i += 1;
    }
    let candidate = names[best];
    assert(slice_texts(names@)[best as int] == candidate@);
    assert(is_closest(typed@, best as int));
    assert(known_commands()[best as int] == candidate@);
    if best_distance <= 3 || starts_with(candidate, typed.as_str()) || starts_with(
        typed.as_str(),
        candidate,
    ) {
        Some(candidate)
    } else {
        None
    }
}

/// Only one known command is the closest.
pub proof fn closest_is_unique(input: Seq<char>, j: int, k: int)
    requires
        is_closest(input, j),
        is_closest(input, k),
    ensures
        j == k,
{
    if j < k {
        assert(distance(input, known_commands()[k]) < distance(input, known_commands()[j]));
    } else if k < j {
        assert(distance(input, known_commands()[j]) < distance(input, known_commands()[k]));
    }
}

/// There is one suggestion, or none, for what was typed.
pub proof fn suggestion_is_unique(
    input: Seq<char>,
    first: Option<Seq<char>>,
    second: Option<Seq<char>>,
)
    requires
        suggests(input, first),
        suggests(input, second),
    ensures
        first == second,
{
    let typed = lowered(input);
    let j = choose|j: int|
        #![trigger known_commands()[j]]
        is_closest(typed, j) && first == suggestion(typed, j);
    let k = choose|k: int|
        #![trigger known_commands()[k]]
        is_closest(typed, k) && second == suggestion(typed, k);
    closest_is_unique(typed, j, k);
}

proof fn lemma_known_commands_differ(j: int, k: int)
    requires
        0 <= j < k < known_commands().len(),
    ensures
        known_commands()[j] != known_commands()[k],
{
    reveal_strlit("install");
    reveal_strlit("update");
    reveal_strlit("upgrade");
    reveal_strlit("search");
    reveal_strlit("info");
    reveal_strlit("uninstall");
    reveal_strlit("list");
    reveal_strlit("doctor");
    reveal_strlit("clean");
    reveal_strlit("help");
    let a = known_commands()[j];
    let b = known_commands()[k];
    assert(a.len() != b.len() || a[0] != b[0]);
}

/// A known command is what is suggested for its own name, in whatever letter case it is typed.
pub proof fn known_command_suggests_itself(input: Seq<char>, k: int)
    requires
        0 <= k < known_commands().len(),
        lowered(input) == known_commands()[k],
    ensures
        suggests(input, Some(known_commands()[k])),
{
    let typed = lowered(input);
    distance_is_zero_for_equal_texts_only(typed, typed);
    assert forall|j: int| 0 <= j < k implies distance(typed, known_commands()[k]) < distance(
        typed,
        #[trigger] known_commands()[j],
    ) by {
        lemma_known_commands_differ(j, k);
        distance_is_zero_for_equal_texts_only(typed, known_commands()[j]);
    }
    assert(is_closest(typed, k));
}

/// What the program says in place of the parser's own message: that the command is unknown, which
/// command may have been meant, and where help is.
pub open spec fn unknown_command_lines(typed: Seq<char>, command: Seq<char>) -> Seq<Seq<char>> {
    seq![
        painted(Colour::Red, "error:"@) + " unknown command '"@ + typed + "'"@,
        "Did you meant brew "@ + command + " ?"@,
        "For help, use 'brew help'."@,
    ]
}

/// Decides what to say of arguments that could not be parsed. Where the parser met a name that it
/// does not know, and the first argument is no option and resembles a command, the lines to show
/// are returned. Otherwise there are none, and the parser's own message is to be shown.
pub fn parse_error_report(unknown_name: bool, first_argument: Option<&str>) -> (r: Option<
    Vec<String>,
>)
    ensures
        match first_argument {
            Some(typed) => if unknown_name && !"-"@.is_prefix_of(typed@) {
                exists|answer: Option<Seq<char>>|
                    suggests(typed@, answer) && match (answer, r) {
                        (Some(command), Some(lines)) => texts(lines@) == unknown_command_lines(
                            typed@,
                            command,
                        ),
                        (None, None) => true,
                        _ => false,
                    }
            } else {
                r is None
            },
            None => r is None,
        },
{
    if !unknown_name {
        return None;
    }
    match first_argument {
        Some(typed) => {
            if starts_with(typed, "-") {
                return None;
            }
            let answer = suggest_command(typed);
            assert(suggests(typed@, optional_slice(answer)));
            match answer {
                Some(command) => {
                    let lines = vec![
                        paint(Colour::Red, "error:").concat(" unknown command '").concat(
                            typed,
                        ).concat("'"),
                        String::from_str("Did you meant brew ").concat(command).concat(" ?"),
                        String::from_str("For help, use 'brew help'."),
                    ];
                    assert(texts(lines@) =~= unknown_command_lines(typed@, command@));
                    Some(lines)
                },
                None => None,
            }
        },
        None => None,
    }
}

/// What is suggested is a known command that no other is closer to than what was typed, letter case
/// aside, and the first of those that are as close. It is suggested only if at most three edits lie
/// between them or one begins with the other, and then it always is.
pub proof fn suggestion_is_the_nearest_command(
    input: Seq<char>,
    answer: Option<Seq<char>>,
    k: int,
)
    requires
        suggests(input, answer),
        0 <= k < known_commands().len(),
        forall|j: int|
            0 <= j < known_commands().len() ==> distance(lowered(input), known_commands()[k])
                <= distance(lowered(input), #[trigger] known_commands()[j]),
        forall|j: int|
            0 <= j < k ==> distance(lowered(input), known_commands()[k]) < distance(
                lowered(input),
                #[trigger] known_commands()[j],
            ),
    ensures
        ({
            let command = known_commands()[k];
            let near = distance(lowered(input), command) <= 3 || lowered(input).is_prefix_of(command)
                || command.is_prefix_of(lowered(input));
            &&& near ==> answer == Some(command)
            &&& !near ==> answer is None
        }),
{
    let typed = lowered(input);
    let found = choose|i: int|
        #![trigger known_commands()[i]]
        is_closest(typed, i) && answer == suggestion(typed, i);
    assert(is_closest(typed, k));
    closest_is_unique(typed, found, k);
}

/// What is said of an unknown command repeats what was typed, and names the command that may have
/// been meant.
pub proof fn unknown_command_is_repeated(typed: Seq<char>, command: Seq<char>)
    ensures
        unknown_command_lines(typed, command).len() == 3,
        unknown_command_lines(typed, command)[0] == painted(Colour::Red, "error:"@)
            + " unknown command '"@ + typed + "'"@,
        unknown_command_lines(typed, command)[1] == "Did you meant brew "@ + command + " ?"@,
        unknown_command_lines(typed, command)[2] == "For help, use 'brew help'."@,
{
}

/// Every command of the program can be suggested, and so can the help.
pub proof fn every_command_can_be_suggested()
    ensures
        known_commands().len() == 10,
        known_commands().contains("install"@),
        known_commands().contains("update"@),
        known_commands().contains("upgrade"@),
        known_commands().contains("search"@),
        known_commands().contains("info"@),
        known_commands().contains("uninstall"@),
        known_commands().contains("list"@),
        known_commands().contains("doctor"@),
        known_commands().contains("clean"@),
        known_commands().contains("help"@),
        known_commands().no_duplicates(),
{
    let all = known_commands();
    assert(all[0] == "install"@ && all[1] == "update"@ && all[2] == "upgrade"@);
    assert(all[3] == "search"@ && all[4] == "info"@ && all[5] == "uninstall"@);
    assert(all[6] == "list"@ && all[7] == "doctor"@ && all[8] == "clean"@ && all[9] == "help"@);
    assert forall|j: int, k: int| 0 <= j < all.len() && 0 <= k < all.len() && j != k implies all[j]
        != all[k] by {
        if j < k {
            lemma_known_commands_differ(j, k);
        } else {
            lemma_known_commands_differ(k, j);
        }
    }
}

} // verus!
