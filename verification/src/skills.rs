//! Skills: their definitions, read from the front matter of each `SKILL.md`, and the system
//! prompt that lists them.
use vstd::prelude::*;
use crate::text::chars_of;
use crate::wrap::join_lines;

verus! {

/// What the front matter of a `SKILL.md` defines.
#[derive(Debug)]
pub struct SkillDef {
    pub name: String,
    pub description: String,
    pub last_updated: Option<String>,
    pub allowed_tools: Option<String>,
    pub compatibility: Option<String>,
}

/// Whether the front matter delimiter `---` starts at position `i` of `s`.
pub open spec fn marker_at(s: Seq<char>, i: int) -> bool {
    0 <= i && i + 3 <= s.len() && s[i] == '-' && s[i + 1] == '-' && s[i + 2] == '-'
}

/// Whether `i` is the first position where `---` starts.
pub open spec fn first_marker_at(s: Seq<char>, i: int) -> bool {
    marker_at(s, i) && forall|k: int| 0 <= k < i ==> !marker_at(s, k)
}

/// The text before the first `---` of `s`, or all of `s` when it has none.
pub open spec fn before_marker(s: Seq<char>) -> Seq<char> {
    if exists|i: int| first_marker_at(s, i) {
        s.take(choose|i: int| first_marker_at(s, i))
    } else {
        s
    }
}

/// The front matter of a skill file: the text between its first and second `---` (up to its
/// end when there is no second one); none when the file has no `---` at all. This is the
/// second piece that `splitn(3, "---")` yields.
pub open spec fn front_matter_spec(content: Seq<char>) -> Option<Seq<char>> {
    if exists|i: int| first_marker_at(content, i) {
        let i = choose|i: int| first_marker_at(content, i);
        Some(before_marker(content.skip(i + 3)))
    } else {
        None
    }
}

/// Position of the first `---` in `chars` at or after `from`, or the length when none.
fn find_marker(chars: &Vec<char>, from: usize) -> (at: usize)
    requires
        from <= chars@.len(),
    ensures
        from <= at <= chars@.len(),
        at < chars@.len() ==> marker_at(chars@, at as int),
        forall|k: int| from <= k < at ==> !marker_at(chars@, k),
        at == chars@.len() ==> forall|k: int| from <= k < chars@.len() ==> !marker_at(chars@, k),
{
    let mut i = from;
    while i < chars.len()
        invariant
            from <= i <= chars@.len(),
            forall|k: int| from <= k < i ==> !marker_at(chars@, k),
        decreases chars.len() - i,
    {
        if chars.len() - i >= 3 && chars[i] == '-' && chars[i + 1] == '-' && chars[i + 2] == '-' {
            return i;
        }
        i = i + 1;
    }
    i
}

fn string_of(chars: &Vec<char>, from: usize, to: usize) -> (s: String)
    requires
        from <= to <= chars@.len(),
    ensures
        s@ == chars@.subrange(from as int, to as int),
{
    let mut s = String::new();
    let mut i = from;
    while i < to
        invariant
            from <= i <= to,
            to <= chars@.len(),
            s@ == chars@.subrange(from as int, i as int),
        decreases to - i,
    {
        crate::text::string_push(&mut s, chars[i]);
        assert(chars@.subrange(from as int, i + 1) == chars@.subrange(from as int, i as int).push(chars@[i as int]));
        i = i + 1;
    }
    s
}

/// The front matter of a skill file, as [`front_matter_spec`] says.
pub fn skill_front_matter(content: &str) -> (front: Option<String>)
    ensures
        match front {
            Some(f) => front_matter_spec(content@) == Some(f@),
            None => front_matter_spec(content@) is None,
        },
{
    let chars = chars_of(content);
    let first = find_marker(&chars, 0);
    if first == chars.len() {
        assert(!exists|i: int| first_marker_at(content@, i));
        return None;
    }
    assert(first_marker_at(content@, first as int));
    let start = first + 3;
    let second = find_marker(&chars, start);
    let front = string_of(&chars, start, second);
    proof {
        let i = choose|i: int| first_marker_at(content@, i);
        assert(i == first) by {
            if i < first {
                assert(!marker_at(content@, i));
            } else if i > first {
                assert(!marker_at(content@, first as int));
            }
        }
        let rest = content@.skip(start as int);
        assert forall|k: int| 0 <= k implies (marker_at(rest, k) <==> marker_at(content@, k + start)) by {
            if 0 <= k && k + 3 <= rest.len() {
                assert(rest[k] == content@[k + start]);
                assert(rest[k + 1] == content@[k + start + 1]);
                assert(rest[k + 2] == content@[k + start + 2]);
            }
        }
        if second < chars.len() {
            let j = (second - start) as int;
            assert(first_marker_at(rest, j));
            let c = choose|c: int| first_marker_at(rest, c);
            assert(c == j) by {
                if c < j {
                    assert(!marker_at(content@, c + start));
                } else if c > j {
                    assert(!marker_at(rest, j));
                }
            }
            assert(rest.take(j) =~= content@.subrange(start as int, second as int));
        } else {
            assert(!exists|c: int| first_marker_at(rest, c)) by {
                if exists|c: int| first_marker_at(rest, c) {
                    let c = choose|c: int| first_marker_at(rest, c);
                    assert(marker_at(content@, c + start));
                }
            }
            assert(rest =~= content@.subrange(start as int, second as int));
        }
    }
    Some(front)
}

/// A skill file that opens with `---`, then its front matter, then `---` and the body, has
/// that front matter (when the front matter itself holds no `---`, also not across its end).
pub proof fn law_front_matter_between_delimiters(yaml: Seq<char>, body: Seq<char>)
    requires
        forall|k: int| 0 <= k < yaml.len() ==> !marker_at(yaml + "---"@, k),
    ensures
        front_matter_spec("---"@ + yaml + "---"@ + body) == Some(yaml),
{
    reveal_strlit("---");
    let d = "---"@;
    let c = d + yaml + d + body;
    assert(marker_at(c, 0));
    assert(first_marker_at(c, 0));
    let i = choose|i: int| first_marker_at(c, i);
    assert(i == 0) by {
        if i > 0 {
            assert(!marker_at(c, 0));
        }
    }
    let rest = c.skip(3);
    assert(rest =~= yaml + d + body);
    let n = yaml.len() as int;
    assert(marker_at(rest, n)) by {
        assert(rest[n] == '-' && rest[n + 1] == '-' && rest[n + 2] == '-');
    }
    assert forall|k: int| 0 <= k < n implies !marker_at(rest, k) by {
        assert(!marker_at(yaml + d, k));
        if marker_at(rest, k) {
            assert(rest[k] == (yaml + d)[k]);
            assert(rest[k + 1] == (yaml + d)[k + 1]);
            assert(rest[k + 2] == (yaml + d)[k + 2]);
        }
    }
    assert(first_marker_at(rest, n));
    let j = choose|j: int| first_marker_at(rest, j);
    assert(j == n) by {
        if j < n {
            assert(!marker_at(rest, j));
        } else if j > n {
            assert(!marker_at(rest, n));
        }
    }
    assert(rest.take(n) =~= yaml);
}

/// The line listing one skill: `<name> - <description>`.
pub open spec fn skill_line(s: SkillDef) -> Seq<char> {
    s.name@ + " - "@ + s.description@
}

/// The text of the system prompt before the list of skills.
pub open spec fn prompt_intro() -> Seq<char> {
    "The following skills are available for you to choose from using the ReadSkill tool:\n        "@
}

/// The text of the system prompt after the list of skills.
pub open spec fn prompt_outro() -> Seq<char> {
    "\n        \n        IMPORTANT: When asking to read references in the context of a skill, use the ReadSkill tool with both arguments ! DO NOT attempt to read reference directly using Read tool\n        Example: When wanting to read this reference [deploying.md](references/deploying.md) in the firebase-hosting-basics skill\n        call the ReadSkill tool with the following arguments { \"skill_name\": \"firebase-hosting-basics\" \"reference_path\": \"references/deploying.md\" }\n        "@
}

/// The lines listing the skills, in order.
pub open spec fn skill_lines(skills: Seq<SkillDef>) -> Seq<Seq<char>> {
    Seq::new(skills.len(), |i: int| skill_line(skills[i]))
}

/// The system prompt: the skills one per line, between a fixed introduction and fixed
/// instructions on reading skill references.
pub open spec fn system_prompt_spec(skills: Seq<SkillDef>) -> Seq<char> {
    prompt_intro() + join_lines(skill_lines(skills)) + prompt_outro()
}

/// The system prompt listing `skills`.
pub fn get_system_prompt(skills: &Vec<SkillDef>) -> (prompt: String)
    ensures
        prompt@ == system_prompt_spec(skills@),
{
    let mut list = String::new();
    let mut i: usize = 0;
    while i < skills.len()
        invariant
            i <= skills@.len(),
            list@ == join_lines(skill_lines(skills@).take(i as int)),
            i > 0 ==> list@.len() > 0,
            i == 0 ==> list@.len() == 0,
        decreases skills.len() - i,
    {
        let ghost lines = skill_lines(skills@);
        assert(lines.take(i + 1).drop_last() == lines.take(i as int));
        proof {
            reveal_strlit(" - ");
            reveal_strlit("\n");
        }
        if chars_of(list.as_str()).len() > 0 {
            list.append("\n");
        } else {
            assert(lines.take(0) =~= Seq::<Seq<char>>::empty());
        }
        list.append(skills[i].name.as_str());
        list.append(" - ");
        list.append(skills[i].description.as_str());
        i = i + 1;
    }
    assert(skill_lines(skills@).take(i as int) == skill_lines(skills@));
    let mut prompt = String::from_str("The following skills are available for you to choose from using the ReadSkill tool:\n        ");
    prompt.append(list.as_str());
    prompt.append("\n        \n        IMPORTANT: When asking to read references in the context of a skill, use the ReadSkill tool with both arguments ! DO NOT attempt to read reference directly using Read tool\n        Example: When wanting to read this reference [deploying.md](references/deploying.md) in the firebase-hosting-basics skill\n        call the ReadSkill tool with the following arguments { \"skill_name\": \"firebase-hosting-basics\" \"reference_path\": \"references/deploying.md\" }\n        ");
    prompt
}

/// All the values when every result succeeded, in order; otherwise the first error.
pub open spec fn all_or_first_error<T, E>(results: Seq<Result<T, E>>) -> Result<Seq<T>, E>
    decreases results.len(),
{
    if results.len() == 0 {
        Ok(Seq::empty())
    } else {
        match all_or_first_error(results.drop_last()) {
            Err(e) => Err(e),
            Ok(values) => match results.last() {
                Ok(v) => Ok(values.push(v)),
                Err(e) => Err(e),
            },
        }
    }
}

/// Once a prefix holds an error, the first error of the whole is that one.
proof fn lemma_first_error_stays<T, E>(results: Seq<Result<T, E>>, k: int)
    requires
        0 <= k <= results.len(),
        all_or_first_error(results.take(k)) is Err,
    ensures
        all_or_first_error(results) == all_or_first_error(results.take(k)),
    decreases results.len() - k,
{
    if k < results.len() {
        let next = results.take(k + 1);
        assert(next.drop_last() =~= results.take(k));
        lemma_first_error_stays(results, k + 1);
    } else {
        assert(results.take(k) =~= results);
    }
}

/// The skills read from their files: all of them when each file was read and parsed, or the
/// first error, in the order of the files.
pub fn collect_skill_results<T, E>(results: Vec<Result<T, E>>) -> (collected: Result<Vec<T>, E>)
    ensures
        collected is Ok ==> all_or_first_error(results@) == Ok::<Seq<T>, E>(collected->Ok_0@),
        collected is Err ==> all_or_first_error(results@) == Err::<Seq<T>, E>(collected->Err_0),
{
    let ghost all = results@;
    let mut rest = results;
    let mut values: Vec<T> = Vec::new();
    let ghost mut i: int = 0;
    assert(all.take(0) =~= Seq::<Result<T, E>>::empty());
    while rest.len() > 0
        invariant
            all == results@,
            0 <= i <= all.len(),
            rest@ == all.skip(i),
            all_or_first_error(all.take(i)) == Ok::<Seq<T>, E>(values@),
        decreases rest.len(),
    {
        let r = rest.remove(0);
        proof {
            assert(all.take(i + 1).drop_last() =~= all.take(i));
            assert(all.take(i + 1).last() == all[i]);
            assert(all[i] == r);
        }
        match r {
            Ok(v) => {
                values.push(v);
            },
            Err(e) => {
                proof {
                    assert(all_or_first_error(all.take(i + 1)) == Err::<Seq<T>, E>(e));
                    lemma_first_error_stays(all, i + 1);
                    assert(all_or_first_error(all) == Err::<Seq<T>, E>(e));
                }
                return Err(e);
            },
        }
        proof {
            assert(rest@ =~= all.skip(i + 1));
            i = i + 1;
        }
    }
    proof {
        assert(all.take(i) =~= all);
    }
    Ok(values)
}

} // verus!
