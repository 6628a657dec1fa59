use vstd::prelude::*;

use crate::text::{
    chars_of, clean_ids, comma_pieces, has_prefix, lines, lines_of, skip, starts_with, texts,
    trim, trim_chars, trimmed, trimmed_pieces,
};

verus! {

/// Which lines an ignore directive covers.
#[derive(Debug, Clone, Copy, PartialEq, Eq, Structural)]
pub enum AnnotationScope {
    /// The line right after the directive.
    NextLine,
    /// Every line of the file.
    File,
}

/// An ignore directive found in a file.
#[derive(Debug, Clone)]
pub struct Annotation {
    pub scope: AnnotationScope,
    /// The rules it covers; empty means all rules.
    pub rule_ids: Vec<String>,
    /// The 0-based line the directive stands on.
    pub line: u32,
}

/// What an annotation says, as plain values.
pub struct AnnotationView {
    pub scope: AnnotationScope,
    pub rule_ids: Seq<Seq<char>>,
    pub line: u32,
}

impl View for Annotation {
    type V = AnnotationView;

    open spec fn view(&self) -> AnnotationView {
        AnnotationView { scope: self.scope, rule_ids: texts(self.rule_ids@), line: self.line }
    }
}

/// The views of a sequence of annotations.
pub open spec fn annotation_views(v: Seq<Annotation>) -> Seq<AnnotationView> {
    v.map_values(|a: Annotation| a@)
}

/// Whether annotation `a` covers rule `rule` on line `line`.
pub open spec fn annotation_covers(a: AnnotationView, rule: Seq<char>, line: u32) -> bool {
    &&& (a.scope == AnnotationScope::File || line as int == a.line as int + 1)
    &&& (a.rule_ids.len() == 0 || a.rule_ids.contains(rule))
}

/// Whether some annotation of `anns` covers rule `rule` on line `line`.
pub open spec fn rule_ignored(anns: Seq<AnnotationView>, rule: Seq<char>, line: u32) -> bool {
    exists|i: int| 0 <= i < anns.len() && annotation_covers(#[trigger] anns[i], rule, line)
}

/// Whether `t` starts with comment prefix `p` and, after it and any
/// whitespace, with the directive keyword.
pub open spec fn qualifies(t: Seq<char>, p: Seq<char>) -> bool {
    has_prefix(t, p) && has_prefix(trimmed(t.skip(p.len() as int)), "forseti-ignore"@)
}

/// The first of `prefixes` under which `t` holds a directive.
pub open spec fn directive_prefix(prefixes: Seq<Seq<char>>, t: Seq<char>) -> Option<Seq<char>>
    decreases prefixes.len(),
{
    if prefixes.len() == 0 {
        None
    } else if qualifies(t, prefixes[0]) {
        Some(prefixes[0])
    } else {
        directive_prefix(prefixes.drop_first(), t)
    }
}

/// The rule ids a directive lists: comma-separated, trimmed, empties dropped.
pub open spec fn rule_list(part: Seq<char>) -> Seq<Seq<char>> {
    if part.len() == 0 {
        Seq::empty()
    } else {
        clean_ids(comma_pieces(part))
    }
}

/// The scope and rule list that follow the directive keyword.
pub open spec fn directive(rem: Seq<char>) -> (AnnotationScope, Seq<char>) {
    if has_prefix(rem, "-file"@) {
        (AnnotationScope::File, trimmed(rem.skip("-file"@.len() as int)))
    } else if has_prefix(rem, "-next-line"@) {
        (AnnotationScope::NextLine, trimmed(rem.skip("-next-line"@.len() as int)))
    } else {
        (AnnotationScope::NextLine, rem)
    }
}

/// The annotation that line `line` (numbered `n`) holds, if any.
pub open spec fn line_annotation(prefixes: Seq<Seq<char>>, line: Seq<char>, n: u32) -> Option<
    AnnotationView,
> {
    let t = trimmed(line);
    match directive_prefix(prefixes, t) {
        None => None,
        Some(p) => {
            let c = trimmed(t.skip(p.len() as int));
            let rem = trimmed(c.skip("forseti-ignore"@.len() as int));
            let (scope, part) = directive(rem);
            Some(AnnotationView { scope, rule_ids: rule_list(part), line: n })
        },
    }
}

/// The annotations of the first `n` lines, in line order.
pub open spec fn annotations_of_lines(prefixes: Seq<Seq<char>>, lines: Seq<Seq<char>>, n: int) -> Seq<
    AnnotationView,
>
    decreases n,
{
    if n <= 0 {
        Seq::empty()
    } else {
        let r = annotations_of_lines(prefixes, lines, n - 1);
        match line_annotation(prefixes, lines[n - 1], (n - 1) as u32) {
            Some(a) => r.push(a),
            None => r,
        }
    }
}

/// The annotations of a text, in line order.
pub open spec fn annotations_of(prefixes: Seq<Seq<char>>, text: Seq<char>) -> Seq<AnnotationView> {
    annotations_of_lines(prefixes, lines_of(text), lines_of(text).len() as int)
}

proof fn lemma_directive_prefix(prefixes: Seq<Seq<char>>, t: Seq<char>, i: int)
    requires
        0 <= i <= prefixes.len(),
        forall|k: int| 0 <= k < i ==> !qualifies(t, #[trigger] prefixes[k]),
    ensures
        i < prefixes.len() && qualifies(t, prefixes[i]) ==> directive_prefix(prefixes, t) == Some(
            prefixes[i],
        ),
        i == prefixes.len() ==> directive_prefix(prefixes, t) is None,
    decreases i,
{
    if i > 0 {
        let rest = prefixes.drop_first();
        assert forall|k: int| 0 <= k < i - 1 implies !qualifies(t, #[trigger] rest[k]) by {
            assert(rest[k] == prefixes[k + 1]);
        }
        lemma_directive_prefix(rest, t, i - 1);
        assert(!qualifies(t, prefixes[0]));
    }
}

/// The first prefix under which `t` holds a directive, and what follows it,
/// trimmed.
fn find_directive(prefixes: &Vec<String>, t: &[char]) -> (r: Option<Vec<char>>)
    ensures
        r is None ==> directive_prefix(texts(prefixes@), t@) is None,
        r matches Some(c) ==> directive_prefix(texts(prefixes@), t@) matches Some(p) && c@ == trimmed(
            t@.skip(p.len() as int),
        ) && has_prefix(c@, "forseti-ignore"@),
{
    let ghost ps = texts(prefixes@);
    let kw = chars_of("forseti-ignore");
    let mut i: usize = 0;
    while i < prefixes.len()
        invariant
            0 <= i <= prefixes@.len(),
            ps == texts(prefixes@),
            kw@ == "forseti-ignore"@,
            forall|k: int| 0 <= k < i ==> !qualifies(t@, #[trigger] ps[k]),
        decreases prefixes@.len() - i,
    {
        let pc = chars_of(prefixes[i].as_str());
        if starts_with(t, pc.as_slice()) {
            let c = trim_chars(skip(t, pc.len()).as_slice());
            if starts_with(c.as_slice(), kw.as_slice()) {
                proof {
                    assert(ps[i as int] == pc@);
                    lemma_directive_prefix(ps, t@, i as int);
                }
                return Some(c);
            }
        }
        assert(!qualifies(t@, ps[i as int]));
        i += 1;
    }
    proof {
        lemma_directive_prefix(ps, t@, i as int);
    }
    None
}

/// The trimmed, non-empty comma-separated pieces of `part`.
fn parse_rule_list(part: &[char]) -> (r: Vec<String>)
    ensures
        texts(r@) == rule_list(part@),
{
    if part.len() == 0 {
        assert(texts(Seq::<String>::empty()) =~= Seq::<Seq<char>>::empty());
        return Vec::new();
    }
    trimmed_pieces(part)
}

/// Parsing the annotations of a text twice gives the same list: the result
/// depends on the prefixes and the text alone.
pub proof fn lemma_parse_deterministic(p1: AnnotationParser, p2: AnnotationParser, text: Seq<char>, r1: Seq<AnnotationView>, r2: Seq<AnnotationView>)
    requires
        p1.prefixes() == p2.prefixes(),
        r1 == annotations_of(p1.prefixes(), text),
        r2 == annotations_of(p2.prefixes(), text),
    ensures
        r1 == r2,
{
}

/// Finds ignore directives in comments that start with one of its prefixes.
pub struct AnnotationParser {
    prefixes: Vec<String>,
}

impl AnnotationParser {
    /// The comment prefixes, in the order they are tried.
    pub closed spec fn prefixes(&self) -> Seq<Seq<char>> {
        texts(self.prefixes@)
    }

    pub fn new(prefixes: Vec<String>) -> (r: Self)
        ensures
            r.prefixes() == texts(prefixes@),
    {
        AnnotationParser { prefixes }
    }

    /// All annotations of a text, in line order.
    pub fn parse_annotations(&self, text: &str) -> (r: Vec<Annotation>)
        ensures
            annotation_views(r@) == annotations_of(self.prefixes(), text@),
    {
        let ls = lines(text);
        let ghost lv = lines_of(text@);
        let mut out: Vec<Annotation> = Vec::new();
        let mut i: usize = 0;
        assert(annotation_views(out@) =~= Seq::<AnnotationView>::empty());
        while i < ls.len()
            invariant
                0 <= i <= ls@.len(),
                lv == lines_of(text@),
                ls@.len() == lv.len(),
                forall|k: int| 0 <= k < ls@.len() ==> (#[trigger] ls@[k])@ == lv[k],
                annotation_views(out@) == annotations_of_lines(self.prefixes(), lv, i as int),
            decreases ls@.len() - i,
        {
            let ghost before = out@;
            if let Some(a) = self.parse_line_annotation(ls[i].as_str(), i as u32) {
                out.push(a);
                assert(annotation_views(out@) =~= annotation_views(before).push(a@));
            }
            i += 1;
        }
        out
    }

    /// The annotation that one line holds, if any. A line holds one when,
    /// trimmed, it starts with one of the comment prefixes followed (after
    /// whitespace) by `forseti-ignore`, the first such prefix counting; `-file` or `-next-line` then set the scope (next line
    /// when neither is given), and the rest is a comma-separated rule list.
    pub fn parse_line_annotation(&self, line: &str, line_num: u32) -> (r: Option<Annotation>)
        ensures
            r is None ==> line_annotation(self.prefixes(), line@, line_num) is None,
            r matches Some(a) ==> line_annotation(self.prefixes(), line@, line_num) == Some(a@),
    {
        let t = chars_of(trim(line).as_str());
        let c = match find_directive(&self.prefixes, t.as_slice()) {
            Some(c) => c,
            None => return None,
        };
        let kw = chars_of("forseti-ignore");
        let rem = trim_chars(skip(c.as_slice(), kw.len()).as_slice());
        let file = chars_of("-file");
        let next_line = chars_of("-next-line");
        let (scope, part) = if starts_with(rem.as_slice(), file.as_slice()) {
            (AnnotationScope::File, trim_chars(skip(rem.as_slice(), file.len()).as_slice()))
        } else if starts_with(rem.as_slice(), next_line.as_slice()) {
            (AnnotationScope::NextLine, trim_chars(skip(rem.as_slice(), next_line.len()).as_slice()))
        } else if rem.len() == 0 {
            (AnnotationScope::NextLine, Vec::new())
        } else {
            (AnnotationScope::NextLine, rem)
        };
        let rule_ids = parse_rule_list(part.as_slice());
        Some(Annotation { scope, rule_ids, line: line_num })
    }

    /// Whether some annotation covers rule `rule_id` on line `line`: a file-scope
    /// one on any line, a next-line one on the line after it, in both cases only
    /// if its rule list is empty or names the rule.
    pub fn should_ignore_rule(&self, annotations: &[Annotation], rule_id: &str, line: u32) -> (r:
        bool)
        ensures
            r == rule_ignored(annotation_views(annotations@), rule_id@, line),
    {
        let rule = rule_id.to_owned();
        let ghost anns = annotation_views(annotations@);
        let mut i: usize = 0;
        while i < annotations.len()
            invariant
                0 <= i <= annotations@.len(),
                anns == annotation_views(annotations@),
                rule@ == rule_id@,
                forall|k: int| 0 <= k < i ==> !annotation_covers(#[trigger] anns[k], rule@, line),
            decreases annotations@.len() - i,
        {
            let a = &annotations[i];
            let on_line = match a.scope {
                AnnotationScope::File => true,
                AnnotationScope::NextLine => line as u64 == a.line as u64 + 1,
            };
            if on_line {
                if a.rule_ids.len() == 0 {
                    assert(annotation_covers(anns[i as int], rule@, line));
                    return true;
                }
                let mut j: usize = 0;
                while j < a.rule_ids.len()
                    invariant
                        0 <= i < annotations@.len(),
                        anns == annotation_views(annotations@),
                        *a == annotations@[i as int],
                        rule@ == rule_id@,
                        a.scope == AnnotationScope::File || line as int == a.line as int + 1,
                        0 <= j <= a.rule_ids@.len(),
                        forall|k: int| 0 <= k < j ==> (#[trigger] a.rule_ids@[k])@ != rule@,
                    decreases a.rule_ids@.len() - j,
                {
                    if a.rule_ids[j] == rule {
                        assert(texts(a.rule_ids@)[j as int] == rule@);
                        assert(annotation_covers(anns[i as int], rule@, line));
                        return true;
                    }
                    j += 1;
                }
                assert(!texts(a.rule_ids@).contains(rule@)) by {
                    if texts(a.rule_ids@).contains(rule@) {
                        let k = choose|k: int|
                            0 <= k < texts(a.rule_ids@).len() && texts(a.rule_ids@)[k] == rule@;
                        assert(a.rule_ids@[k]@ == rule@);
                    }
                }
            }
            i += 1;
        }
        false
    }
}

} // verus!
