//! Notifications through the Pushover service.
//!
//! The credentials come from the environment, or from a `.env` file in the current directory:
//!
//! - `PUSHOVER_TOKEN` is the token of the application,
//! - `PUSHOVER_USER` is the key of the user.

use crate::decimal;
use crate::text;
use crate::text::CharSet;
use vstd::prelude::*;
use vstd::utf8::*;

verus! {

pub const API_URL: &'static str = "https://api.pushover.net/1/messages.json";

pub const CONTENT_TYPE: &'static str = "application/x-www-form-urlencoded";

/// How long the service may take to answer, in seconds.
pub const TIMEOUT_SECS: u64 = 15;

/// The contents of a list of pairs of texts.
pub open spec fn pair_texts(v: Seq<(String, String)>) -> Seq<(Seq<char>, Seq<char>)> {
    v.map_values(|p: (String, String)| (p.0@, p.1@))
}

// ---------------------------------------------------------------------------
// The .env file
// ---------------------------------------------------------------------------

/// The assignment that a line of the file makes, if it makes one. Empty lines, comments and lines
/// without an equals sign make none, nor do lines without a name. Quotation marks round a value
/// are dropped.
pub open spec fn assignment_of(line: Seq<char>) -> Option<(Seq<char>, Seq<char>)> {
    let bare = text::trimmed(line, CharSet::WhiteSpace);
    if bare.len() == 0 || bare[0] == '#' {
        None
    } else {
        match text::split_first(bare, '=') {
            None => None,
            Some((name, value)) => {
                let key = text::trimmed(name, CharSet::WhiteSpace);
                if key.len() == 0 {
                    None
                } else {
                    Some((key, unquoted(value)))
                }
            },
        }
    }
}

/// A value without the white space, then without the double and then without the single quotation
/// marks round it.
pub open spec fn unquoted(value: Seq<char>) -> Seq<char> {
    text::trimmed(
        text::trimmed(text::trimmed(value, CharSet::WhiteSpace), CharSet::One('"')),
        CharSet::One('\''),
    )
}

/// The assignments of some lines, in order.
pub open spec fn assignments(lines: Seq<Seq<char>>) -> Seq<(Seq<char>, Seq<char>)>
    decreases lines.len(),
{
    if lines.len() == 0 {
        Seq::empty()
    } else {
        match assignment_of(lines.last()) {
            Some(pair) => assignments(lines.drop_last()).push(pair),
            None => assignments(lines.drop_last()),
        }
    }
}

fn parse_line(line: &str) -> (r: Option<(String, String)>)
    ensures
        match r {
            Some(pair) => assignment_of(line@) == Some((pair.0@, pair.1@)),
            None => assignment_of(line@) is None,
        },
{
    let bare = text::trim(line, CharSet::WhiteSpace);
    if bare.as_str().is_empty() || bare.as_str().get_char(0) == '#' {
        return None;
    }
    match text::split_once(bare.as_str(), '=') {
        None => None,
        Some((name, value)) => {
            let key = text::trim(name.as_str(), CharSet::WhiteSpace);
            if key.as_str().is_empty() {
                return None;
            }
            let bare_value = text::trim(value.as_str(), CharSet::WhiteSpace);
            let without_double = text::trim(bare_value.as_str(), CharSet::One('"'));
            Some((key, text::trim(without_double.as_str(), CharSet::One('\''))))
        },
    }
}

/// The assignments of a `.env` file, in order.
pub fn parse_dotenv(file: &str) -> (out: Vec<(String, String)>)
    ensures
        pair_texts(out@) == assignments(text::pieces(file@, '\n')),
{
    let lines = text::split_all(file, '\n');
    let ghost views = text::texts(lines@);
    let mut out: Vec<(String, String)> = Vec::new();
    let mut i: usize = 0;
    assert(pair_texts(out@) =~= assignments(views.take(0)));
    while i < lines.len()
        invariant
            views == text::texts(lines@),
            i <= views.len(),
            pair_texts(out@) == assignments(views.take(i as int)),
        decreases views.len() - i,
    {
        assert(views.take(i + 1).drop_last() =~= views.take(i as int));
        assert(views.take(i + 1).last() == lines@[i as int]@);
        if let Some(pair) = parse_line(lines[i].as_str()) {
            let ghost before = out@;
            out.push(pair);
            assert(pair_texts(out@) =~= pair_texts(before).push((pair.0@, pair.1@)));
        }
        i = i + 1;
    }
    assert(views.take(views.len() as int) =~= views);
    out
}

/// The name is assigned by one of the pairs.
pub open spec fn assigns(pairs: Seq<(Seq<char>, Seq<char>)>, key: Seq<char>) -> bool {
    exists|i: int| 0 <= i < pairs.len() && (#[trigger] pairs[i]).0 == key
}

/// The assignments that are made: those of names that are not set, and of these the first of each
/// name.
pub open spec fn made(pairs: Seq<(Seq<char>, Seq<char>)>, is_set: Seq<bool>) -> Seq<
    (Seq<char>, Seq<char>),
>
    decreases pairs.len(),
{
    if pairs.len() == 0 {
        Seq::empty()
    } else {
        let before = made(pairs.drop_last(), is_set);
        if is_set[pairs.len() - 1] || assigns(before, pairs.last().0) {
            before
        } else {
            before.push(pairs.last())
        }
    }
}

/// The assignments that are made, given which of the names are set already. A variable that is
/// set is never overwritten.
pub fn missing_assignments(pairs: &Vec<(String, String)>, is_set: &Vec<bool>) -> (out: Vec<
    (String, String),
>)
    requires
        is_set@.len() == pairs@.len(),
    ensures
        pair_texts(out@) == made(pair_texts(pairs@), is_set@),
{
    let ghost views = pair_texts(pairs@);
    let mut out: Vec<(String, String)> = Vec::new();
    let mut i: usize = 0;
    assert(pair_texts(out@) =~= made(views.take(0), is_set@));
    while i < pairs.len()
        invariant
            views == pair_texts(pairs@),
            is_set@.len() == pairs@.len(),
            i <= views.len(),
            pair_texts(out@) == made(views.take(i as int), is_set@),
        decreases views.len() - i,
    {
        assert(views.take(i + 1).drop_last() =~= views.take(i as int));
        assert(views.take(i + 1).last() == (pairs@[i as int].0@, pairs@[i as int].1@));
        if !is_set[i] && !is_assigned(&out, pairs[i].0.as_str()) {
            let ghost before = out@;
            out.push((pairs[i].0.clone(), pairs[i].1.clone()));
            assert(pair_texts(out@) =~= pair_texts(before).push(views[i as int]));
        }
        i = i + 1;
    }
    assert(views.take(views.len() as int) =~= views);
    out
}

fn is_assigned(pairs: &Vec<(String, String)>, key: &str) -> (r: bool)
    ensures
        r == assigns(pair_texts(pairs@), key@),
{
    let ghost views = pair_texts(pairs@);
    let mut i: usize = 0;
    while i < pairs.len()
        invariant
            views == pair_texts(pairs@),
            i <= views.len(),
            forall|j: int| 0 <= j < i ==> (#[trigger] views[j]).0 != key@,
        decreases views.len() - i,
    {
        assert(views[i as int].0 == pairs@[i as int].0@);
        if text::same_text(pairs[i].0.as_str(), key) {
            return true;
        }
        i = i + 1;
    }
    false
}

/// Every assignment that is made is of a name that was not set, and no name is assigned twice.
pub proof fn assignments_never_overwrite(pairs: Seq<(Seq<char>, Seq<char>)>, is_set: Seq<bool>)
    requires
        is_set.len() == pairs.len(),
        forall|i: int, j: int|
            0 <= i < pairs.len() && 0 <= j < pairs.len() && pairs[i].0 == pairs[j].0
                ==> is_set[i] == is_set[j],
    ensures
        forall|m: int, i: int|
            #![trigger made(pairs, is_set)[m], pairs[i]]
            0 <= m < made(pairs, is_set).len() && 0 <= i < pairs.len()
                && made(pairs, is_set)[m].0 == pairs[i].0 ==> !is_set[i],
        forall|m: int, n: int|
            0 <= m < n < made(pairs, is_set).len() ==> made(pairs, is_set)[m].0 != made(
                pairs,
                is_set,
            )[n].0,
{
    lemma_made(pairs, is_set, pairs.len() as int);
    assert(pairs.take(pairs.len() as int) =~= pairs);
    assert forall|m: int, i: int|
        #![trigger made(pairs, is_set)[m], pairs[i]]
        0 <= m < made(pairs, is_set).len() && 0 <= i < pairs.len() && made(pairs, is_set)[m].0
            == pairs[i].0 implies !is_set[i] by {
        let j = choose|j: int|
            0 <= j < pairs.len() && !is_set[j] && pairs[j] == made(pairs, is_set)[m];
        assert(pairs[j].0 == pairs[i].0);
    }
}

proof fn lemma_made(pairs: Seq<(Seq<char>, Seq<char>)>, is_set: Seq<bool>, n: int)
    requires
        is_set.len() == pairs.len(),
        0 <= n <= pairs.len(),
    ensures
        ({
            let out = made(pairs.take(n), is_set);
            &&& forall|m: int|
                0 <= m < out.len() ==> exists|j: int|
                    0 <= j < n && !is_set[j] && pairs[j] == #[trigger] out[m]
            &&& forall|m: int, k: int| 0 <= m < k < out.len() ==> out[m].0 != out[k].0
        }),
    decreases n,
{
    if n > 0 {
        let few = pairs.take(n - 1);
        let more = pairs.take(n);
        lemma_made(pairs, is_set, n - 1);
        assert(more.drop_last() =~= few);
        let before = made(few, is_set);
        let out = made(more, is_set);
        assert forall|m: int| 0 <= m < out.len() implies exists|j: int|
            0 <= j < n && !is_set[j] && pairs[j] == #[trigger] out[m] by {
            if m < before.len() {
                assert(out[m] == before[m]);
                let j = choose|j: int| 0 <= j < n - 1 && !is_set[j] && pairs[j] == before[m];
                assert(pairs[j] == out[m]);
            } else {
                assert(pairs[n - 1] == out[m]);
            }
        }
        assert forall|m: int, k: int| 0 <= m < k < out.len() implies out[m].0 != out[k].0 by {
            if k == before.len() {
                assert(!assigns(before, pairs[n - 1].0));
                assert(before[m] == out[m]);
            }
        }
    }
}

/// A line that assigns a value to a name assigns just that, whatever white space stands round the
/// name and the value.
pub proof fn lines_assign_what_they_say(
    margin: Seq<char>,
    name: Seq<char>,
    gap: Seq<char>,
    space: Seq<char>,
    value: Seq<char>,
    end: Seq<char>,
)
    requires
        text::all_in(margin, CharSet::WhiteSpace),
        text::all_in(gap, CharSet::WhiteSpace),
        text::all_in(space, CharSet::WhiteSpace),
        text::all_in(end, CharSet::WhiteSpace),
        name.len() > 0,
        text::bare(name, CharSet::WhiteSpace),
        !name.contains('='),
        name[0] != '#',
        value.len() > 0,
        text::bare(value, CharSet::WhiteSpace),
    ensures
        assignment_of(margin + (name + gap + seq!['='] + (space + value)) + end) == Some(
            (name, unquoted(value)),
        ),
{
    let set = CharSet::WhiteSpace;
    let none = Seq::<char>::empty();
    let rest = space + value;
    let head = name + gap;
    let middle = head + seq!['='] + rest;
    assert(middle[0] == name[0]);
    assert(middle.last() == value.last());
    text::trimming_drops_the_margins(margin, middle, end, set);
    text::white_space_of_ascii('=');
    assert(!head.contains('=')) by {
        if head.contains('=') {
            let i = choose|i: int| 0 <= i < head.len() && head[i] == '=';
            if i < name.len() {
                assert(name[i] == '=');
            } else {
                assert(set.holds(gap[i - name.len()]));
            }
        }
    }
    text::cutting_is_at_the_first(head, '=', rest);
    assert(none + name + gap =~= head);
    text::trimming_drops_the_margins(none, name, gap, set);
    assert(space + value + none =~= rest);
    text::trimming_drops_the_margins(space, value, none, set);
    assert(none + value + none =~= value);
    text::trimming_drops_the_margins(none, value, none, set);
}

/// A value without quotation marks at its ends stands for itself, and one in double or in single
/// quotation marks for what stands between them.
pub proof fn quotation_marks_are_dropped(value: Seq<char>)
    requires
        text::bare(value, CharSet::WhiteSpace),
        text::bare(value, CharSet::One('"')),
        text::bare(value, CharSet::One('\'')),
    ensures
        unquoted(value) == value,
        unquoted(seq!['"'] + value + seq!['"']) == value,
        unquoted(seq!['\''] + value + seq!['\'']) == value,
{
    let none = Seq::<char>::empty();
    let double = seq!['"'];
    let single = seq!['\''];
    let blank = CharSet::WhiteSpace;
    text::white_space_of_ascii('"');
    text::white_space_of_ascii('\'');
    assert(none + value + none =~= value);
    text::trimming_drops_the_margins(none, value, none, blank);
    text::trimming_drops_the_margins(none, value, none, CharSet::One('"'));
    text::trimming_drops_the_margins(none, value, none, CharSet::One('\''));
    let in_double = double + value + double;
    let in_single = single + value + single;
    assert(none + in_double + none =~= in_double);
    assert(none + in_single + none =~= in_single);
    text::trimming_drops_the_margins(none, in_double, none, blank);
    text::trimming_drops_the_margins(none, in_single, none, blank);
    text::trimming_drops_the_margins(double, value, double, CharSet::One('"'));
    text::trimming_drops_the_margins(none, in_single, none, CharSet::One('"'));
    text::trimming_drops_the_margins(single, value, single, CharSet::One('\''));
}

/// A blank line, a line whose first sign is a number sign, and a line without an equals sign
/// assign nothing.
pub proof fn other_lines_assign_nothing(margin: Seq<char>, line: Seq<char>, end: Seq<char>)
    requires
        text::all_in(margin, CharSet::WhiteSpace),
        text::all_in(end, CharSet::WhiteSpace),
        text::bare(line, CharSet::WhiteSpace),
    ensures
        line.len() == 0 ==> assignment_of(margin + line + end) is None,
        line.len() > 0 && line[0] == '#' ==> assignment_of(margin + line + end) is None,
        !line.contains('=') ==> assignment_of(margin + line + end) is None,
        line.len() > 0 && line[0] == '=' ==> assignment_of(margin + line + end) is None,
{
    let set = CharSet::WhiteSpace;
    let none = Seq::<char>::empty();
    text::trimming_drops_the_margins(margin, line, end, set);
    if !line.contains('=') {
        text::cutting_is_at_the_first(line, '=', none);
    }
    if line.len() > 0 && line[0] == '=' {
        assert(none + seq!['='] + line.skip(1) =~= line);
        text::cutting_is_at_the_first(none, '=', line.skip(1));
        assert(none + none + none =~= none);
        text::trimming_drops_the_margins(none, none, none, set);
    }
}

/// The assignments of a file are those of its lines, in order.
pub proof fn files_assign_line_by_line(lines: Seq<Seq<char>>, line: Seq<char>)
    ensures
        assignments(Seq::<Seq<char>>::empty()).len() == 0,
        assignment_of(line) is Some ==> assignments(lines.push(line)) == assignments(lines).push(
            assignment_of(line)->0,
        ),
        assignment_of(line) is None ==> assignments(lines.push(line)) == assignments(lines),
{
    assert(lines.push(line).drop_last() =~= lines);
}

proof fn lemma_first_made(pairs: Seq<(Seq<char>, Seq<char>)>, is_set: Seq<bool>, at: int)
    requires
        pairs.len() <= is_set.len(),
        0 <= at < pairs.len(),
        !is_set[at],
        forall|i: int| 0 <= i < at ==> (#[trigger] pairs[i]).0 != pairs[at].0,
    ensures
        made(pairs, is_set).contains(pairs[at]),
        forall|m: int|
            0 <= m < made(pairs, is_set).len() && (#[trigger] made(pairs, is_set)[m]).0
                == pairs[at].0 ==> made(pairs, is_set)[m] == pairs[at],
    decreases pairs.len(),
{
    let init = pairs.drop_last();
    let before = made(init, is_set);
    let out = made(pairs, is_set);
    assert(forall|i: int| 0 <= i < init.len() ==> #[trigger] init[i] == pairs[i]);
    if at < init.len() {
        lemma_first_made(init, is_set, at);
        let m = choose|m: int| 0 <= m < before.len() && before[m] == pairs[at];
        assert(out[m] == pairs[at]);
        assert(before[m].0 == pairs[at].0);
        assert forall|k: int| 0 <= k < out.len() && (#[trigger] out[k]).0 == pairs[at].0 implies
            out[k] == pairs[at] by {
            if k < before.len() {
                assert(before[k] == out[k]);
            } else {
                assert(assigns(before, pairs.last().0));
            }
        }
    } else {
        lemma_made_from(init, is_set);
        if assigns(before, pairs[at].0) {
            let m = choose|m: int| 0 <= m < before.len() && (#[trigger] before[m]).0
                == pairs[at].0;
            let j = choose|j: int| 0 <= j < init.len() && init[j] == before[m];
            assert(pairs[j].0 == pairs[at].0);
        }
        assert(out[before.len() as int] == pairs[at]);
        assert forall|k: int| 0 <= k < out.len() && (#[trigger] out[k]).0 == pairs[at].0 implies
            out[k] == pairs[at] by {
            if k < before.len() {
                assert(before[k].0 == pairs[at].0);
            }
        }
    }
}

proof fn lemma_made_from(pairs: Seq<(Seq<char>, Seq<char>)>, is_set: Seq<bool>)
    ensures
        forall|m: int|
            0 <= m < made(pairs, is_set).len() ==> exists|j: int|
                0 <= j < pairs.len() && pairs[j] == #[trigger] made(pairs, is_set)[m],
    decreases pairs.len(),
{
    if pairs.len() > 0 {
        let init = pairs.drop_last();
        let before = made(init, is_set);
        let out = made(pairs, is_set);
        lemma_made_from(init, is_set);
        assert forall|m: int| 0 <= m < out.len() implies exists|j: int|
            0 <= j < pairs.len() && pairs[j] == #[trigger] out[m] by {
            if m < before.len() {
                assert(before[m] == out[m]);
                let j = choose|j: int| 0 <= j < init.len() && init[j] == before[m];
                assert(pairs[j] == out[m]);
            } else {
                assert(pairs[pairs.len() - 1] == out[m]);
            }
        }
    }
}

/// Of several assignments to a name that is not set, the first one in the file is made.
pub proof fn the_first_assignment_is_made(
    pairs: Seq<(Seq<char>, Seq<char>)>,
    is_set: Seq<bool>,
    at: int,
)
    requires
        pairs.len() == is_set.len(),
        0 <= at < pairs.len(),
        !is_set[at],
        forall|i: int| 0 <= i < at ==> (#[trigger] pairs[i]).0 != pairs[at].0,
    ensures
        made(pairs, is_set).contains(pairs[at]),
        forall|m: int|
            0 <= m < made(pairs, is_set).len() && (#[trigger] made(pairs, is_set)[m]).0
                == pairs[at].0 ==> made(pairs, is_set)[m] == pairs[at],
{
    lemma_first_made(pairs, is_set, at);
}

/// Whether the `.env` file was loaded in this process.
#[derive(Clone, Copy, Debug, PartialEq, Eq, Structural)]
pub struct DotenvLoad {
    pub done: bool,
}

impl DotenvLoad {
    /// Loads the file, or notes that there is none to read. Returns its assignments, the first
    /// time only.
    pub fn load_dotenv(&mut self, file: Option<&str>) -> (out: Vec<(String, String)>)
        ensures
            final(self).done,
            pair_texts(out@) == loaded_pairs(*old(self), text_of(file)),
    {
        let done = self.done;
        self.done = true;
        let none: Vec<(String, String)> = Vec::new();
        assert(pair_texts(none@) =~= Seq::empty());
        match file {
            Some(content) => if done {
                none
            } else {
                parse_dotenv(content)
            },
            None => none,
        }
    }
}

/// The text of a file that may not be there.
pub open spec fn text_of(file: Option<&str>) -> Option<Seq<char>> {
    match file {
        Some(content) => Some(content@),
        None => None,
    }
}

/// The assignments of a file that is loaded for the first time.
pub open spec fn loaded_pairs(load: DotenvLoad, file: Option<Seq<char>>) -> Seq<
    (Seq<char>, Seq<char>),
> {
    match file {
        Some(content) => if load.done {
            Seq::empty()
        } else {
            assignments(text::pieces(content, '\n'))
        },
        None => Seq::empty(),
    }
}

/// The variables of a process, with the bytes of their values.
pub type Environment = Map<Seq<char>, Seq<u8>>;

/// Which of the names are set.
pub open spec fn set_names(env: Environment, pairs: Seq<(Seq<char>, Seq<char>)>) -> Seq<bool> {
    pairs.map_values(|pair: (Seq<char>, Seq<char>)| env.contains_key(pair.0))
}

/// The environment after some assignments.
pub open spec fn assigned(env: Environment, pairs: Seq<(Seq<char>, Seq<char>)>) -> Environment
    decreases pairs.len(),
{
    if pairs.len() == 0 {
        env
    } else {
        assigned(env, pairs.drop_last()).insert(
            pairs.last().0,
            vstd::utf8::encode_utf8(pairs.last().1),
        )
    }
}

/// The environment after a load.
pub open spec fn after_load(
    env: Environment,
    load: DotenvLoad,
    file: Option<Seq<char>>,
) -> Environment {
    let pairs = loaded_pairs(load, file);
    assigned(env, made(pairs, set_names(env, pairs)))
}

proof fn lemma_assigned(env: Environment, pairs: Seq<(Seq<char>, Seq<char>)>, name: Seq<char>)
    ensures
        assigned(env, pairs).contains_key(name) == (env.contains_key(name) || assigns(
            pairs,
            name,
        )),
        !assigns(pairs, name) && env.contains_key(name) ==> assigned(env, pairs)[name] == env[name],
    decreases pairs.len(),
{
    if pairs.len() > 0 {
        let init = pairs.drop_last();
        lemma_assigned(env, init, name);
        if assigns(init, name) {
            let i = choose|i: int| 0 <= i < init.len() && (#[trigger] init[i]).0 == name;
            assert(pairs[i].0 == name);
        }
        assert(pairs[pairs.len() - 1] == pairs.last());
        if assigns(pairs, name) && pairs.last().0 != name {
            let i = choose|i: int| 0 <= i < pairs.len() && (#[trigger] pairs[i]).0 == name;
            assert(init[i].0 == name);
        }
    }
}

/// A load changes no variable that is set, and sets no variable but those that the file assigns.
pub proof fn loads_never_overwrite(
    env: Environment,
    load: DotenvLoad,
    file: Option<Seq<char>>,
    name: Seq<char>,
)
    ensures
        env.contains_key(name) ==> after_load(env, load, file).contains_key(name) && after_load(
            env,
            load,
            file,
        )[name] == env[name],
        !env.contains_key(name) ==> after_load(env, load, file).contains_key(name) == assigns(
            loaded_pairs(load, file),
            name,
        ),
{
    let pairs = loaded_pairs(load, file);
    let is_set = set_names(env, pairs);
    let out = made(pairs, is_set);
    assignments_never_overwrite(pairs, is_set);
    lemma_assigned(env, out, name);
    lemma_made(pairs, is_set, pairs.len() as int);
    assert(pairs.take(pairs.len() as int) =~= pairs);
    if assigns(out, name) {
        let m = choose|m: int| 0 <= m < out.len() && (#[trigger] out[m]).0 == name;
        let j = choose|j: int| 0 <= j < pairs.len() && !is_set[j] && pairs[j] == out[m];
        assert(pairs[j].0 == name);
        assert(is_set[j] == env.contains_key(name));
    }
    if !env.contains_key(name) && assigns(pairs, name) {
        lemma_made_assigns(pairs, is_set, name);
    }
}

proof fn lemma_made_assigns(
    pairs: Seq<(Seq<char>, Seq<char>)>,
    is_set: Seq<bool>,
    name: Seq<char>,
)
    requires
        pairs.len() <= is_set.len(),
        assigns(pairs, name),
        forall|i: int| 0 <= i < pairs.len() && (#[trigger] pairs[i]).0 == name ==> !is_set[i],
    ensures
        assigns(made(pairs, is_set), name),
    decreases pairs.len(),
{
    let init = pairs.drop_last();
    let before = made(init, is_set);
    let out = made(pairs, is_set);
    assert forall|i: int| 0 <= i < init.len() && (#[trigger] init[i]).0 == name implies
        !is_set[i] by {
        assert(pairs[i].0 == name);
    }
    let i = choose|i: int| 0 <= i < pairs.len() && (#[trigger] pairs[i]).0 == name;
    if i < init.len() {
        assert(init[i].0 == name);
        lemma_made_assigns(init, is_set, name);
    }
    if assigns(before, name) {
        let m = choose|m: int| 0 <= m < before.len() && (#[trigger] before[m]).0 == name;
        assert(out[m].0 == name);
    } else {
        assert(pairs[pairs.len() - 1].0 == name);
        assert(out[out.len() - 1].0 == name);
    }
}

/// Without a file, and after the first load, a load changes nothing.
pub proof fn only_the_first_load_counts(
    env: Environment,
    load: DotenvLoad,
    file: Option<Seq<char>>,
)
    ensures
        load.done ==> after_load(env, load, file) == env,
        file is None ==> after_load(env, load, file) == env,
{
    let pairs = loaded_pairs(load, file);
    if load.done || file is None {
        assert(made(pairs, set_names(env, pairs)) =~= Seq::empty());
    }
}

/// The environment after a series of loads, of which the first may be the first of the process.
pub open spec fn after_loads(
    env: Environment,
    load: DotenvLoad,
    files: Seq<Option<Seq<char>>>,
) -> Environment
    decreases files.len(),
{
    if files.len() == 0 {
        env
    } else {
        after_loads(
            after_load(env, load, files.first()),
            (DotenvLoad { done: true }),
            files.drop_first(),
        )
    }
}

/// However often the file is loaded, and whatever it holds, a variable that was set keeps its
/// value, and all is as after the first load.
pub proof fn many_loads_are_as_one(
    env: Environment,
    load: DotenvLoad,
    files: Seq<Option<Seq<char>>>,
    name: Seq<char>,
)
    requires
        files.len() > 0,
    ensures
        after_loads(env, load, files) == after_load(env, load, files[0]),
        env.contains_key(name) ==> after_loads(env, load, files).contains_key(name) && after_loads(
            env,
            load,
            files,
        )[name] == env[name],
    decreases files.len(),
{
    loads_never_overwrite(env, load, files[0], name);
    let first = after_load(env, load, files[0]);
    let rest = files.drop_first();
    if rest.len() > 0 {
        many_loads_are_as_one(first, (DotenvLoad { done: true }), rest, name);
        only_the_first_load_counts(first, (DotenvLoad { done: true }), rest[0]);
    } else {
        assert(after_loads(first, (DotenvLoad { done: true }), rest) == first);
    }
}

// ---------------------------------------------------------------------------
// The request
// ---------------------------------------------------------------------------

/// Optional parameters of a notification.
#[derive(Clone, Copy, Debug)]
pub struct PushoverOptions<'a> {
    pub title: &'a str,
    pub priority: i32,
    pub device: &'a str,
    pub sound: &'a str,
    pub url: &'a str,
    pub url_title: &'a str,
}

impl<'a> PushoverOptions<'a> {
    /// No optional parameter.
    pub open spec fn empty(self) -> bool {
        &&& self.title@.len() == 0
        &&& self.priority == 0
        &&& self.device@.len() == 0
        &&& self.sound@.len() == 0
        &&& self.url@.len() == 0
        &&& self.url_title@.len() == 0
    }
}

impl<'a> Default for PushoverOptions<'a> {
    fn default() -> (r: Self)
        ensures
            r.empty(),
    {
        proof {
            reveal_strlit("");
        }
        PushoverOptions { title: "", priority: 0, device: "", sound: "", url: "", url_title: "" }
    }
}

/// Why a notification was not sent.
#[derive(Debug)]
pub enum PushoverError {
    /// The token is neither in the environment nor in the file at the path.
    MissingToken(String),
    /// The user is neither in the environment nor in the file at the path.
    MissingUser(String),
    /// The request failed.
    Http(String),
    /// The service refused the request.
    Api { errors: Vec<String> },
}

/// The parameter, if it has a value.
pub open spec fn optional_pair(key: Seq<char>, value: Seq<char>) -> Seq<(Seq<char>, Seq<char>)> {
    if value.len() == 0 {
        Seq::empty()
    } else {
        seq![(key, value)]
    }
}

/// The parameters of a request.
pub open spec fn request_pairs(
    token: Seq<char>,
    user: Seq<char>,
    message: Seq<char>,
    options: PushoverOptions,
) -> Seq<(Seq<char>, Seq<char>)> {
    seq![("token"@, token), ("user"@, user), ("message"@, message)] + optional_pair(
        "title"@,
        options.title@,
    ) + optional_pair("device"@, options.device@) + optional_pair("sound"@, options.sound@)
        + optional_pair("url"@, options.url@) + optional_pair("url_title"@, options.url_title@) + (
    if options.priority == 0 {
        Seq::empty()
    } else {
        seq![("priority"@, decimal::signed_decimal(options.priority as int))]
    })
}

fn push_pair(params: &mut Vec<(String, String)>, key: &str, value: &str)
    ensures
        pair_texts(final(params)@) == pair_texts(old(params)@).push((key@, value@)),
{
    let ghost before = params@;
    params.push((key.to_owned(), value.to_owned()));
    assert(pair_texts(params@) =~= pair_texts(before).push((key@, value@)));
}

fn push_if(params: &mut Vec<(String, String)>, key: &str, value: &str)
    ensures
        pair_texts(final(params)@) == pair_texts(old(params)@) + optional_pair(key@, value@),
{
    let ghost before = pair_texts(params@);
    if value.is_empty() {
        assert(before + optional_pair(key@, value@) =~= before);
    } else {
        push_pair(params, key, value);
        assert(before.push((key@, value@)) =~= before + optional_pair(key@, value@));
    }
}

/// The parameters of a request.
pub fn request_params(
    token: &str,
    user: &str,
    message: &str,
    options: &PushoverOptions,
) -> (params: Vec<(String, String)>)
    ensures
        pair_texts(params@) == request_pairs(token@, user@, message@, *options),
{
    let mut params: Vec<(String, String)> = Vec::new();
    assert(pair_texts(params@) =~= Seq::<(Seq<char>, Seq<char>)>::empty());
    push_pair(&mut params, "token", token);
    push_pair(&mut params, "user", user);
    push_pair(&mut params, "message", message);
    assert(pair_texts(params@) =~= seq![
        ("token"@, token@),
        ("user"@, user@),
        ("message"@, message@),
    ]);
    push_if(&mut params, "title", options.title);
    push_if(&mut params, "device", options.device);
    push_if(&mut params, "sound", options.sound);
    push_if(&mut params, "url", options.url);
    push_if(&mut params, "url_title", options.url_title);
    if options.priority != 0 {
        push_pair(
            &mut params,
            "priority",
            decimal::i64_text(options.priority as i64).as_str(),
        );
    }
    assert(pair_texts(params@) =~= request_pairs(token@, user@, message@, *options));
    params
}

proof fn lemma_held_by_both<A>(a: Seq<A>, b: Seq<A>, x: A)
    ensures
        (a + b).contains(x) == (a.contains(x) || b.contains(x)),
{
    let both = a + b;
    if a.contains(x) {
        let i = choose|i: int| 0 <= i < a.len() && a[i] == x;
        assert(both[i] == x);
    }
    if b.contains(x) {
        let i = choose|i: int| 0 <= i < b.len() && b[i] == x;
        assert(both[a.len() + i] == x);
    }
    if both.contains(x) {
        let i = choose|i: int| 0 <= i < both.len() && both[i] == x;
        if i < a.len() {
            assert(a[i] == x);
        } else {
            assert(b[i - a.len()] == x);
        }
    }
}

proof fn lemma_held_if_given(key: Seq<char>, value: Seq<char>, x: (Seq<char>, Seq<char>))
    ensures
        optional_pair(key, value).contains(x) == (value.len() > 0 && x == (key, value)),
{
    if value.len() > 0 {
        assert(optional_pair(key, value)[0] == (key, value));
    }
}

/// A request holds the token, the user and the message, in this order and first of all; besides,
/// it holds each text option under its own name exactly where the text is not empty, the priority
/// in decimal digits exactly where it is not zero, and nothing else.
pub proof fn requests_hold_what_was_given(
    token: Seq<char>,
    user: Seq<char>,
    message: Seq<char>,
    options: PushoverOptions,
    name: Seq<char>,
    value: Seq<char>,
)
    ensures
        ({
            let pairs = request_pairs(token, user, message, options);
            &&& pairs.len() >= 3
            &&& pairs[0] == ("token"@, token)
            &&& pairs[1] == ("user"@, user)
            &&& pairs[2] == ("message"@, message)
            &&& pairs.contains((name, value)) <==> {
                ||| name == "token"@ && value == token
                ||| name == "user"@ && value == user
                ||| name == "message"@ && value == message
                ||| name == "title"@ && value == options.title@ && value.len() > 0
                ||| name == "device"@ && value == options.device@ && value.len() > 0
                ||| name == "sound"@ && value == options.sound@ && value.len() > 0
                ||| name == "url"@ && value == options.url@ && value.len() > 0
                ||| name == "url_title"@ && value == options.url_title@ && value.len() > 0
                ||| name == "priority"@ && options.priority != 0 && value
                    == decimal::signed_decimal(options.priority as int)
            }
        }),
{
    let x = (name, value);
    let a = seq![("token"@, token), ("user"@, user), ("message"@, message)];
    let title = optional_pair("title"@, options.title@);
    let device = optional_pair("device"@, options.device@);
    let sound = optional_pair("sound"@, options.sound@);
    let url = optional_pair("url"@, options.url@);
    let url_title = optional_pair("url_title"@, options.url_title@);
    let priority: Seq<(Seq<char>, Seq<char>)> = if options.priority == 0 {
        Seq::empty()
    } else {
        seq![("priority"@, decimal::signed_decimal(options.priority as int))]
    };
    assert(a.contains(x) == (x == a[0] || x == a[1] || x == a[2])) by {
        assert(a.contains(a[0]) && a.contains(a[1]) && a.contains(a[2]));
    }
    assert(priority.contains(x) == (options.priority != 0 && x == (
        "priority"@,
        decimal::signed_decimal(options.priority as int),
    ))) by {
        if options.priority != 0 {
            assert(priority.contains(priority[0]));
        }
    }
    lemma_held_if_given("title"@, options.title@, x);
    lemma_held_if_given("device"@, options.device@, x);
    lemma_held_if_given("sound"@, options.sound@, x);
    lemma_held_if_given("url"@, options.url@, x);
    lemma_held_if_given("url_title"@, options.url_title@, x);
    lemma_held_by_both(a, title, x);
    lemma_held_by_both(a + title, device, x);
    lemma_held_by_both(a + title + device, sound, x);
    lemma_held_by_both(a + title + device + sound, url, x);
    lemma_held_by_both(a + title + device + sound + url, url_title, x);
    lemma_held_by_both(a + title + device + sound + url + url_title, priority, x);
}

/// How many optional parameters are given.
pub open spec fn given_options(options: PushoverOptions) -> int {
    (if options.title@.len() > 0 {
        1int
    } else {
        0
    }) + (if options.device@.len() > 0 {
        1int
    } else {
        0
    }) + (if options.sound@.len() > 0 {
        1int
    } else {
        0
    }) + (if options.url@.len() > 0 {
        1int
    } else {
        0
    }) + (if options.url_title@.len() > 0 {
        1int
    } else {
        0
    }) + (if options.priority != 0 {
        1int
    } else {
        0
    })
}

/// A request holds one parameter for each option that is given, besides the three that it always
/// holds.
pub proof fn requests_hold_each_option_once(
    token: Seq<char>,
    user: Seq<char>,
    message: Seq<char>,
    options: PushoverOptions,
)
    ensures
        request_pairs(token, user, message, options).len() == 3 + given_options(options),
{
}

/// The body of a request is the form of its parameters.
pub proof fn requests_are_forms_of_their_parameters(
    token: Seq<char>,
    user: Seq<char>,
    message: Seq<char>,
    options: PushoverOptions,
)
    ensures
        request(message, options, token, user) == form_text(
            request_pairs(token, user, message, options),
        ),
{
}

/// A byte that stands for itself in a form.
pub open spec fn form_unchanged(b: u8) -> bool {
    48 <= b <= 57 || 65 <= b <= 90 || 97 <= b <= 122 || b == 42 || b == 45 || b == 46 || b == 95
}

/// The upper-case hexadecimal digit of a value below 16.
pub open spec fn upper_digit(v: int) -> char {
    if v < 10 {
        ('0' as int + v) as char
    } else {
        ('A' as int + v - 10) as char
    }
}

/// What stands for a byte in a form: itself, a plus sign for a space, or a percent sign and two
/// hexadecimal digits.
pub open spec fn form_byte(b: u8) -> Seq<char> {
    if form_unchanged(b) {
        seq![b as char]
    } else if b == 32 {
        seq!['+']
    } else {
        seq!['%', upper_digit(b as int / 16), upper_digit(b as int % 16)]
    }
}

pub open spec fn form_bytes(bytes: Seq<u8>) -> Seq<char>
    decreases bytes.len(),
{
    if bytes.len() == 0 {
        Seq::empty()
    } else {
        form_bytes(bytes.drop_last()) + form_byte(bytes.last())
    }
}

/// The pairs as the body of a form: names and values with equals signs, joined by ampersands.
pub open spec fn form_text(pairs: Seq<(Seq<char>, Seq<char>)>) -> Seq<char>
    decreases pairs.len(),
{
    if pairs.len() == 0 {
        Seq::empty()
    } else {
        let (key, value) = pairs.last();
        let pair = form_bytes(encode_utf8(key)) + seq!['='] + form_bytes(encode_utf8(value));
        if pairs.len() == 1 {
            pair
        } else {
            form_text(pairs.drop_last()) + seq!['&'] + pair
        }
    }
}

/// `Serializer` of the `url` crate's `form_urlencoded` gives the pairs as the body of a form.
#[verifier::external_body]
fn form_body(pairs: &Vec<(String, String)>) -> (r: String)
    ensures
        r@ == form_text(pair_texts(pairs@)),
{
    url::form_urlencoded::Serializer::new(String::new()).extend_pairs(pairs).finish()
}

/// What a notification needs: the text of the request, if the credentials are there.
pub open spec fn request(
    message: Seq<char>,
    options: PushoverOptions,
    token: Seq<char>,
    user: Seq<char>,
) -> Seq<char> {
    form_text(request_pairs(token, user, message, options))
}

/// The body of the request for a notification without optional parameters.
pub fn push_notification(message: &str, token: &str, user: &str, env_path: &str) -> (r: Result<
    String,
    PushoverError,
>)
    ensures
        match r {
            Ok(body) => {
                &&& token@.len() > 0
                &&& user@.len() > 0
                &&& body@ == form_text(
                    seq![("token"@, token@), ("user"@, user@), ("message"@, message@)],
                )
            },
            Err(PushoverError::MissingToken(path)) => token@.len() == 0 && path@ == env_path@,
            Err(PushoverError::MissingUser(path)) => token@.len() > 0 && user@.len() == 0 && path@
                == env_path@,
            Err(_) => false,
        },
{
    let options = PushoverOptions::default();
    proof {
        assert(request_pairs(token@, user@, message@, options) =~= seq![
            ("token"@, token@),
            ("user"@, user@),
            ("message"@, message@),
        ]);
    }
    push_notification_with(message, &options, token, user, env_path)
}

/// The body of the request for a notification.
pub fn push_notification_with(
    message: &str,
    options: &PushoverOptions,
    token: &str,
    user: &str,
    env_path: &str,
) -> (r: Result<String, PushoverError>)
    ensures
        match r {
            Ok(body) => {
                &&& token@.len() > 0
                &&& user@.len() > 0
                &&& body@ == request(message@, *options, token@, user@)
            },
            Err(PushoverError::MissingToken(path)) => token@.len() == 0 && path@ == env_path@,
            Err(PushoverError::MissingUser(path)) => token@.len() > 0 && user@.len() == 0 && path@
                == env_path@,
            Err(_) => false,
        },
{
    if token.is_empty() {
        return Err(PushoverError::MissingToken(env_path.to_owned()));
    }
    if user.is_empty() {
        return Err(PushoverError::MissingUser(env_path.to_owned()));
    }
    let params = request_params(token, user, message, options);
    Ok(form_body(&params))
}

// ---------------------------------------------------------------------------
// The reply
// ---------------------------------------------------------------------------

/// A JSON value, as far as the reply of the service is looked at.
#[derive(Debug)]
pub enum JsonValue {
    /// A number that is a signed integer of sixty-four bits.
    Integer(i64),
    Text(String),
    Array(Vec<JsonValue>),
    /// The members of an object, each name once.
    Object(Vec<(String, JsonValue)>),
    /// Anything else.
    Other,
}

/// The number of the first member of that name, from `from` on, or the length.
pub open spec fn member_index(members: Seq<(String, JsonValue)>, name: Seq<char>, from: int) -> int
    decreases members.len() - from,
{
    if 0 <= from < members.len() && members[from].0@ != name {
        member_index(members, name, from + 1)
    } else {
        from
    }
}

impl JsonValue {
    /// The member of an object.
    pub open spec fn member(self, name: Seq<char>) -> Option<JsonValue> {
        match self {
            JsonValue::Object(members) => {
                let i = member_index(members@, name, 0);
                if i < members@.len() {
                    Some(members@[i].1)
                } else {
                    None
                }
            },
            _ => None,
        }
    }

    pub open spec fn text(self) -> Option<Seq<char>> {
        match self {
            JsonValue::Text(s) => Some(s@),
            _ => None,
        }
    }

    /// The member of an object, if there is one of that name.
    pub fn get(&self, name: &str) -> (r: Option<&JsonValue>)
        ensures
            match r {
                Some(v) => self.member(name@) == Some(*v),
                None => self.member(name@) is None,
            },
    {
        match self {
            JsonValue::Object(members) => {
                let mut i: usize = 0;
                while i < members.len()
                    invariant
                        *self == JsonValue::Object(*members),
                        i <= members@.len(),
                        member_index(members@, name@, 0) == member_index(
                            members@,
                            name@,
                            i as int,
                        ),
                    decreases members@.len() - i,
                {
                    if text::same_text(members[i].0.as_str(), name) {
                        return Some(&members[i].1);
                    }
                    i = i + 1;
                }
                None
            },
            _ => None,
        }
    }
}

/// The status of a reply, which is 0 where the reply has none.
pub open spec fn status_of(reply: JsonValue) -> i64 {
    match reply.member("status"@) {
        Some(JsonValue::Integer(n)) => n,
        _ => 0,
    }
}

/// The texts of a list of values; what is no text is left out.
pub open spec fn texts_of(values: Seq<JsonValue>) -> Seq<Seq<char>>
    decreases values.len(),
{
    if values.len() == 0 {
        Seq::empty()
    } else {
        match values.last().text() {
            Some(s) => texts_of(values.drop_last()).push(s),
            None => texts_of(values.drop_last()),
        }
    }
}

/// The errors that a reply names.
pub open spec fn errors_of(reply: JsonValue) -> Seq<Seq<char>> {
    match reply.member("errors"@) {
        Some(JsonValue::Array(values)) => texts_of(values@),
        _ => Seq::empty(),
    }
}

/// The identifier that the service gave the request, which is empty where the reply has none.
pub open spec fn request_id_of(reply: JsonValue) -> Seq<char> {
    match reply.member("request"@) {
        Some(JsonValue::Text(s)) => s@,
        _ => Seq::empty(),
    }
}

/// The member of an object is its first one of that name; an object without one, and what is no
/// object, has none.
pub proof fn members_are_found_by_name(members: Vec<(String, JsonValue)>, name: Seq<char>, at: int)
    requires
        forall|i: int| 0 <= i < at ==> (#[trigger] members@[i]).0@ != name,
        0 <= at <= members@.len(),
    ensures
        at < members@.len() && members@[at].0@ == name ==> JsonValue::Object(members).member(name)
            == Some(members@[at].1),
        at == members@.len() ==> JsonValue::Object(members).member(name) is None,
        JsonValue::Other.member(name) is None,
{
    lemma_member_index(members@, name, at, 0);
}

proof fn lemma_member_index(members: Seq<(String, JsonValue)>, name: Seq<char>, at: int, from: int)
    requires
        forall|i: int| 0 <= i < at ==> (#[trigger] members[i]).0@ != name,
        0 <= from <= at <= members.len(),
    ensures
        at == members.len() || members[at].0@ == name ==> member_index(members, name, from) == at,
    decreases at - from,
{
    if from < at {
        assert(members[from].0@ != name);
        lemma_member_index(members, name, at, from + 1);
    }
}

/// A reply is one of success exactly where its status is the integer 1. The identifier is then the
/// text of its request, and otherwise the errors are the texts that it lists.
pub proof fn replies_are_read_by_their_members(reply: JsonValue)
    ensures
        (status_of(reply) == 1) == (reply.member("status"@) == Some(JsonValue::Integer(1))),
        reply.member("request"@) matches Some(JsonValue::Text(s)) ==> request_id_of(reply) == s@,
        !(reply.member("request"@) is Some && reply.member("request"@)->0 is Text)
            ==> request_id_of(reply).len() == 0,
        reply.member("errors"@) matches Some(JsonValue::Array(values)) ==> errors_of(reply)
            == texts_of(values@),
        !(reply.member("errors"@) is Some && reply.member("errors"@)->0 is Array) ==> errors_of(
            reply,
        ).len() == 0,
{
}

/// The texts of a list are those of its items that are texts, in order.
pub proof fn texts_are_listed_in_order(values: Seq<JsonValue>, value: JsonValue)
    ensures
        texts_of(Seq::<JsonValue>::empty()).len() == 0,
        value matches JsonValue::Text(s) ==> texts_of(values.push(value)) == texts_of(values).push(
            s@,
        ),
        !(value is Text) ==> texts_of(values.push(value)) == texts_of(values),
{
    assert(values.push(value).drop_last() =~= values);
}

fn text_items(values: &Vec<JsonValue>) -> (out: Vec<String>)
    ensures
        text::texts(out@) == texts_of(values@),
{
    let mut out: Vec<String> = Vec::new();
    let mut i: usize = 0;
    assert(text::texts(out@) =~= texts_of(values@.take(0)));
    while i < values.len()
        invariant
            i <= values@.len(),
            text::texts(out@) == texts_of(values@.take(i as int)),
        decreases values@.len() - i,
    {
        assert(values@.take(i + 1).drop_last() =~= values@.take(i as int));
        assert(values@.take(i + 1).last() == values@[i as int]);
        if let JsonValue::Text(s) = &values[i] {
            let ghost before = out@;
            out.push(s.clone());
            assert(text::texts(out@) =~= text::texts(before).push(s@));
        }
        i = i + 1;
    }
    assert(values@.take(values@.len() as int) =~= values@);
    out
}

/// The identifier of a request that the service took, or the errors for which it refused it.
pub fn read_reply(reply: &JsonValue) -> (r: Result<String, PushoverError>)
    ensures
        match r {
            Ok(id) => status_of(*reply) == 1 && id@ == request_id_of(*reply),
            Err(PushoverError::Api { errors }) => status_of(*reply) != 1 && text::texts(errors@)
                == errors_of(*reply),
            Err(_) => false,
        },
{
    let status: i64 = match reply.get("status") {
        Some(JsonValue::Integer(n)) => *n,
        _ => 0,
    };
    if status != 1 {
        let errors = match reply.get("errors") {
            Some(JsonValue::Array(values)) => text_items(values),
            _ => Vec::new(),
        };
        assert(text::texts(errors@) =~= errors_of(*reply));
        return Err(PushoverError::Api { errors });
    }
    match reply.get("request") {
        Some(JsonValue::Text(s)) => Ok(s.clone()),
        _ => {
            let none = String::new();
            assert(none@ =~= Seq::<char>::empty());
            Ok(none)
        },
    }
}

// ---------------------------------------------------------------------------
// Errors in words
// ---------------------------------------------------------------------------

/// A list of texts as the standard library's debug format writes it.
pub uninterp spec fn debug_list(texts: Seq<Seq<char>>) -> Seq<char>;

/// `format!` with the debug format writes a list of texts, in brackets, with each text quoted and
/// escaped. How it escapes is left open.
#[verifier::external_body]
fn debug_text(texts: &Vec<String>) -> (r: String)
    ensures
        r@ == debug_list(text::texts(texts@)),
{
    format!("{texts:?}")
}

impl PushoverError {
    /// The error in words.
    pub open spec fn words(self) -> Seq<char> {
        match self {
            PushoverError::MissingToken(path) => "PUSHOVER_TOKEN not set. Add it to "@ + path@
                + " or set the environment variable."@,
            PushoverError::MissingUser(path) => "PUSHOVER_USER not set. Add it to "@ + path@
                + " or set the environment variable."@,
            PushoverError::Http(e) => "Pushover HTTP error: "@ + e@,
            PushoverError::Api { errors } => "Pushover API error: "@ + debug_list(
                text::texts(errors@),
            ),
        }
    }

    pub fn text(&self) -> (s: String)
        ensures
            s@ == self.words(),
    {
        match self {
            PushoverError::MissingToken(path) => text::join3(
                "PUSHOVER_TOKEN not set. Add it to ",
                path.as_str(),
                " or set the environment variable.",
            ),
            PushoverError::MissingUser(path) => text::join3(
                "PUSHOVER_USER not set. Add it to ",
                path.as_str(),
                " or set the environment variable.",
            ),
            PushoverError::Http(e) => text::join2("Pushover HTTP error: ", e.as_str()),
            PushoverError::Api { errors } => text::join2(
                "Pushover API error: ",
                debug_text(errors).as_str(),
            ),
        }
    }
}

/// Every error tells what is missing and where to add it, or what the service answered.
pub proof fn errors_tell_what_failed(error: PushoverError)
    ensures
        match error {
            PushoverError::MissingToken(path) => error.words()
                == "PUSHOVER_TOKEN not set. Add it to "@ + path@
                + " or set the environment variable."@,
            PushoverError::MissingUser(path) => error.words()
                == "PUSHOVER_USER not set. Add it to "@ + path@
                + " or set the environment variable."@,
            PushoverError::Http(e) => error.words() == "Pushover HTTP error: "@ + e@,
            PushoverError::Api { errors } => error.words()
                == "Pushover API error: "@ + debug_list(text::texts(errors@)),
        },
{
}

/// Requests are forms, and wait a quarter of a minute for an answer.
pub proof fn requests_are_sent_as_forms()
    ensures
        CONTENT_TYPE@ == "application/x-www-form-urlencoded"@,
        TIMEOUT_SECS * 4 == 60,
        API_URL@ == "https://api.pushover.net/1/messages.json"@,
{
}

}
