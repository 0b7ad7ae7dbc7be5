//! MQTT topics: their levels, and what is published under them.
use vstd::prelude::*;
use vstd::string::StrSliceExecFns;

verus! {

/// The contents of a list of strings.
pub open spec fn texts(list: Seq<String>) -> Seq<Seq<char>> {
    list.map_values(|s: String| s@)
}

/// The levels of a topic: what stands before, between and after its slashes.
pub open spec fn levels(topic: Seq<char>) -> Seq<Seq<char>>
    decreases topic.len(),
{
    if topic.len() == 0 {
        seq![Seq::empty()]
    } else {
        let before = levels(topic.drop_last());
        if topic.last() == '/' {
            before.push(Seq::empty())
        } else {
            before.drop_last().push(before.last().push(topic.last()))
        }
    }
}

/// Levels, put together again with a slash between each two.
pub open spec fn joined(parts: Seq<Seq<char>>) -> Seq<char>
    decreases parts.len(),
{
    if parts.len() == 0 {
        Seq::empty()
    } else if parts.len() == 1 {
        parts[0]
    } else {
        joined(parts.drop_last()).push('/') + parts.last()
    }
}

/// A topic is its levels joined by slashes, there is at least one level, and none holds a
/// slash itself.
pub proof fn levels_make_up_the_topic(topic: Seq<char>)
    ensures
        levels(topic).len() >= 1,
        joined(levels(topic)) == topic,
        forall|i: int| 0 <= i < levels(topic).len() ==> !(#[trigger] levels(topic)[i]).contains('/'),
    decreases topic.len(),
{
    if topic.len() > 0 {
        let before = levels(topic.drop_last());
        levels_make_up_the_topic(topic.drop_last());
        let parts = levels(topic);
        assert(topic =~= topic.drop_last().push(topic.last()));
        if topic.last() == '/' {
            assert(parts.drop_last() =~= before);
            assert(joined(parts) =~= topic);
        } else {
            assert(parts.drop_last() =~= before.drop_last());
            let longer = before.last().push(topic.last());
            assert(!longer.contains('/')) by {
                if longer.contains('/') {
                    let i = choose|i: int| 0 <= i < longer.len() && longer[i] == '/';
                    assert(before.last()[i] == '/');
                }
            }
            if before.len() == 1 {
                assert(joined(parts) =~= topic);
            } else {
                assert(joined(parts) =~= joined(before).push(topic.last()));
            }
        }
    }
}

/// Appending a slash and a level without slashes appends the level.
pub proof fn appended_levels_come_last(topic: Seq<char>, level: Seq<char>)
    requires
        !level.contains('/'),
    ensures
        levels(topic.push('/') + level) == levels(topic).push(level),
    decreases level.len(),
{
    let whole = topic.push('/') + level;
    if level.len() == 0 {
        assert(whole =~= topic.push('/'));
        assert(whole.drop_last() =~= topic);
        assert(level =~= Seq::empty());
    } else {
        let shorter = level.drop_last();
        assert(level.last() != '/') by {
            assert(level[level.len() - 1] == level.last());
        }
        assert(!shorter.contains('/')) by {
            if shorter.contains('/') {
                let i = choose|i: int| 0 <= i < shorter.len() && shorter[i] == '/';
                assert(level[i] == '/');
            }
        }
        appended_levels_come_last(topic, shorter);
        assert(whole.drop_last() =~= topic.push('/') + shorter);
        assert(levels(topic).push(shorter).drop_last() =~= levels(topic));
        assert(shorter.push(level.last()) =~= level);
    }
}

/// A text without slashes is a single level.
pub proof fn text_without_slashes_is_one_level(level: Seq<char>)
    requires
        !level.contains('/'),
    ensures
        levels(level) == seq![level],
    decreases level.len(),
{
    if level.len() > 0 {
        let shorter = level.drop_last();
        assert(level.last() != '/') by {
            assert(level[level.len() - 1] == level.last());
        }
        assert(!shorter.contains('/')) by {
            if shorter.contains('/') {
                let i = choose|i: int| 0 <= i < shorter.len() && shorter[i] == '/';
                assert(level[i] == '/');
            }
        }
        text_without_slashes_is_one_level(shorter);
        assert(shorter.push(level.last()) =~= level);
        assert(levels(level) =~= seq![level]);
    } else {
        assert(level =~= Seq::empty());
    }
}

/// The levels on both sides of a slash are those of what stands before it, and then those of
/// what stands behind it.
pub proof fn levels_on_both_sides_of_a_slash(before: Seq<char>, behind: Seq<char>)
    ensures
        levels(before.push('/') + behind) == levels(before) + levels(behind),
    decreases behind.len(),
{
    let whole = before.push('/') + behind;
    if behind.len() == 0 {
        assert(whole =~= before.push('/'));
        assert(whole.drop_last() =~= before);
    } else {
        let shorter = behind.drop_last();
        levels_on_both_sides_of_a_slash(before, shorter);
        levels_make_up_the_topic(shorter);
        assert(whole.drop_last() =~= before.push('/') + shorter);
        assert((levels(before) + levels(shorter)).drop_last() =~= levels(before) + levels(
            shorter,
        ).drop_last());
    }
    assert(levels(whole) =~= levels(before) + levels(behind));
}

/// Cuts a topic into its levels.
pub fn split_levels(topic: &str) -> (parts: Vec<String>)
    ensures
        texts(parts@) == levels(topic@),
        parts@.len() == levels(topic@).len(),
        forall|i: int| 0 <= i < parts@.len() ==> (#[trigger] parts@[i])@ == levels(topic@)[i],
{
    let mut parts: Vec<String> = Vec::new();
    let mut start: usize = 0;
    let mut end: usize = 0;
    let total: usize = topic.unicode_len();
    proof {
        assert(topic@.take(0) =~= Seq::empty());
        assert(topic@.subrange(0, 0) =~= Seq::empty());
        assert(texts(parts@).push(Seq::empty()) =~= seq![Seq::empty()]);
    }
    for c in it: topic.chars()
        invariant
            it.seq() == topic@,
            total == topic@.len(),
            end == it.index(),
            start <= end <= total,
            levels(topic@.take(end as int)) == texts(parts@).push(
                topic@.subrange(start as int, end as int),
            ),
    {
        assert(topic@.take(end + 1).drop_last() =~= topic@.take(end as int));
        let ghost before = texts(parts@).push(topic@.subrange(start as int, end as int));
        if c == '/' {
            parts.push(topic.substring_char(start, end).to_owned());
            start = end + 1;
            assert(texts(parts@) =~= before);
            assert(topic@.subrange(start as int, start as int) =~= Seq::empty());
        } else {
            assert(before.drop_last() =~= texts(parts@));
            assert(topic@.subrange(start as int, end + 1) =~= topic@.subrange(
                start as int,
                end as int,
            ).push(c));
        }
        end = end + 1;
    }
    assert(topic@.take(end as int) =~= topic@);
    let ghost seen = texts(parts@);
    parts.push(topic.substring_char(start, end).to_owned());
    assert(texts(parts@) =~= seen.push(topic@.subrange(start as int, end as int)));
    assert forall|i: int| 0 <= i < parts@.len() implies (#[trigger] parts@[i])@ == levels(
        topic@,
    )[i] by {
        assert(texts(parts@)[i] == parts@[i]@);
    }
    parts
}

} // verus!
