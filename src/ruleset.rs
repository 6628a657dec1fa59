use vstd::prelude::*;

use crate::annotation::{annotation_views, annotations_of, rule_ignored, Annotation, AnnotationParser, AnnotationView};
use crate::capabilities::{PreprocessingContext, RulesetCapabilities};
use crate::diagnostic::{diagnostic_views, Diagnostic, DiagnosticView};
use crate::json::{members_view, Json, JsonView};
use crate::keyed::{find_key, key_seq, lookup};

verus! {

/// What a rule sees while it checks one file, and the diagnostics it has
/// reported so far. Reports go through `report`, which drops those that an
/// annotation masks.
pub struct RuleContext<'a> {
    uri: &'a str,
    text: &'a str,
    options: &'a Json,
    diagnostics: Vec<Diagnostic>,
    annotations: &'a [Annotation],
    annotation_parser: Option<&'a AnnotationParser>,
}

/// Whether a diagnostic is masked: masking is on and an annotation covers its
/// rule on its start line.
pub open spec fn masked(masking: bool, anns: Seq<AnnotationView>, d: DiagnosticView) -> bool {
    masking && rule_ignored(anns, d.rule_id, d.range.start.line)
}

impl<'a> RuleContext<'a> {
    /// No kept diagnostic is masked.
    pub closed spec fn wf(&self) -> bool {
        forall|i: int|
            0 <= i < self.diagnostics@.len() ==> !masked(
                self.annotation_parser is Some,
                annotation_views(self.annotations@),
                #[trigger] self.diagnostics@[i]@,
            )
    }

    pub closed spec fn uri_view(&self) -> Seq<char> {
        self.uri@
    }

    pub closed spec fn text_view(&self) -> Seq<char> {
        self.text@
    }

    pub closed spec fn options_view(&self) -> JsonView {
        self.options@
    }

    pub closed spec fn annotations_view(&self) -> Seq<AnnotationView> {
        annotation_views(self.annotations@)
    }

    /// Whether reports are checked against the annotations.
    pub closed spec fn masking(&self) -> bool {
        self.annotation_parser is Some
    }

    /// The diagnostics kept so far.
    pub closed spec fn reported(&self) -> Seq<DiagnosticView> {
        diagnostic_views(self.diagnostics@)
    }

    /// Everything but the reports stays as it was.
    pub open spec fn same_inputs(&self, other: &Self) -> bool {
        &&& self.uri_view() == other.uri_view()
        &&& self.text_view() == other.text_view()
        &&& self.options_view() == other.options_view()
        &&& self.annotations_view() == other.annotations_view()
        &&& self.masking() == other.masking()
    }

    pub fn new(
        uri: &'a str,
        text: &'a str,
        options: &'a Json,
        annotations: &'a [Annotation],
        annotation_parser: Option<&'a AnnotationParser>,
    ) -> (r: Self)
        ensures
            r.uri_view() == uri@,
            r.text_view() == text@,
            r.options_view() == options@,
            r.annotations_view() == annotation_views(annotations@),
            r.masking() == (annotation_parser is Some),
            r.reported().len() == 0,
            r.wf(),
    {
        let r = RuleContext { uri, text, options, diagnostics: Vec::new(), annotations, annotation_parser };
        assert(diagnostic_views(r.diagnostics@) =~= Seq::<DiagnosticView>::empty());
        r
    }

    pub fn uri(&self) -> (r: &'a str)
        ensures
            r@ == self.uri_view(),
    {
        self.uri
    }

    pub fn text(&self) -> (r: &'a str)
        ensures
            r@ == self.text_view(),
    {
        self.text
    }

    pub fn options(&self) -> (r: &'a Json)
        ensures
            r@ == self.options_view(),
    {
        self.options
    }

    pub fn diagnostics(&self) -> (r: &Vec<Diagnostic>)
        ensures
            diagnostic_views(r@) == self.reported(),
    {
        &self.diagnostics
    }

    /// The kept diagnostics; none of them is masked.
    pub fn into_diagnostics(self) -> (r: Vec<Diagnostic>)
        requires
            self.wf(),
        ensures
            diagnostic_views(r@) == self.reported(),
            forall|i: int|
                0 <= i < r@.len() ==> !masked(
                    self.masking(),
                    self.annotations_view(),
                    #[trigger] r@[i]@,
                ),
    {
        self.diagnostics
    }

    /// Reports a diagnostic; it is dropped when an annotation masks its rule on
    /// its start line.
    pub fn report(&mut self, d: Diagnostic)
        ensures
            final(self).same_inputs(old(self)),
            old(self).wf() ==> final(self).wf(),
            final(self).reported() == (if masked(old(self).masking(), old(self).annotations_view(), d@) {
                old(self).reported()
            } else {
                old(self).reported().push(d@)
            }),
    {
        if let Some(parser) = self.annotation_parser {
            let line = d.range.start.line;
            if parser.should_ignore_rule(self.annotations, d.rule_id.as_str(), line) {
                return;
            }
        }
        let ghost before = self.diagnostics@;
        self.diagnostics.push(d);
        assert(diagnostic_views(self.diagnostics@) =~= diagnostic_views(before).push(d@));
        assert(self.diagnostics@[before.len() as int] == d);
    }

    /// Whether an annotation masks rule `rule_id` on line `line`; never when
    /// masking is off.
    pub fn should_ignore_rule(&self, rule_id: &str, line: u32) -> (r: bool)
        ensures
            r == (self.masking() && rule_ignored(self.annotations_view(), rule_id@, line)),
    {
        if let Some(parser) = self.annotation_parser {
            parser.should_ignore_rule(self.annotations, rule_id, line)
        } else {
            false
        }
    }
}

/// A unit of analysis. Implementations report through the context they are
/// given and leave the rest of it as it is.
pub trait Rule {
    fn id(&self) -> String;

    fn description(&self) -> String;

    fn check(&self, ctx: &mut RuleContext)
        ensures
            final(ctx).same_inputs(old(ctx)),
            old(ctx).wf() ==> final(ctx).wf(),
    ;

    /// The setting of this rule when the user gives none: `"warn"` unless the
    /// rule says otherwise.
    fn default_config(&self) -> Json {
        Json::Str("warn".to_owned())
    }
}

/// What a single ruleset offers: its capabilities, its preprocessing and its
/// rules.
pub trait RulesetOptions {
    type RuleImpl: Rule;

    fn get_capabilities(&self) -> RulesetCapabilities;

    fn preprocess_files(&self, file_uris: &Vec<String>) -> Result<PreprocessingContext, String>;

    fn create_ruleset(&self) -> Ruleset<Self::RuleImpl>;

    /// The default setting of each rule, by rule id.
    fn get_default_config(&self) -> Vec<(String, Json)> {
        let ruleset = self.create_ruleset();
        ruleset_default_config(&ruleset)
    }
}

/// The id and description of a rule.
#[derive(Debug, Clone)]
pub struct RuleInfo {
    pub id: String,
    pub description: String,
}

/// A ruleset and the rules it holds.
#[derive(Debug, Clone)]
pub struct RulesetInfo {
    pub id: String,
    pub rules: Vec<RuleInfo>,
}

/// A named, ordered list of rules. The id of each rule is read once, when it
/// is added.
pub struct Ruleset<R> {
    id: String,
    rules: Vec<(String, R)>,
}

impl<R: Rule> Ruleset<R> {
    /// The ruleset's id.
    pub closed spec fn id_view(&self) -> Seq<char> {
        self.id@
    }

    pub fn id(&self) -> (r: &String)
        ensures
            r@ == self.id_view(),
    {
        &self.id
    }

    /// The ids of the rules, in order.
    pub closed spec fn rule_ids(&self) -> Seq<Seq<char>> {
        key_seq(self.rules@)
    }

    pub fn new(id: &str) -> (r: Self)
        ensures
            r.id_view() == id@,
            r.rule_ids().len() == 0,
    {
        let r = Ruleset { id: id.to_owned(), rules: Vec::new() };
        assert(key_seq(r.rules@) =~= Seq::<Seq<char>>::empty());
        r
    }

    /// This ruleset with one more rule at the end.
    pub fn with_rule(self, rule: R) -> (r: Self)
        ensures
            r.id_view() == self.id_view(),
            r.rule_ids().len() == self.rule_ids().len() + 1,
            r.rule_ids().drop_last() == self.rule_ids(),
    {
        let mut s = self;
        let id = rule.id();
        let ghost before = s.rules@;
        s.rules.push((id, rule));
        assert(key_seq(s.rules@).drop_last() =~= key_seq(before));
        s
    }

    /// The number of rules.
    pub fn len(&self) -> (n: usize)
        ensures
            n == self.rule_ids().len(),
    {
        self.rules.len()
    }

    /// The id of the rule at `i`.
    pub fn rule_id(&self, i: usize) -> (r: &String)
        requires
            i < self.rule_ids().len(),
        ensures
            r@ == self.rule_ids()[i as int],
    {
        &self.rules[i].0
    }

    /// The rule at `i`.
    pub fn rule(&self, i: usize) -> (r: &R)
        requires
            i < self.rule_ids().len(),
    {
        &self.rules[i].1
    }

    /// The ruleset's id and the id and description of each rule, in order.
    pub fn info(&self) -> (r: RulesetInfo)
        ensures
            r.id@ == self.id_view(),
            r.rules@.len() == self.rule_ids().len(),
            forall|i: int| 0 <= i < r.rules@.len() ==> (#[trigger] r.rules@[i]).id@ == self.rule_ids()[i],
    {
        let mut rules: Vec<RuleInfo> = Vec::new();
        let mut i: usize = 0;
        while i < self.rules.len()
            invariant
                0 <= i <= self.rules@.len(),
                rules@.len() == i,
                forall|k: int| 0 <= k < i ==> (#[trigger] rules@[k]).id@ == self.rule_ids()[k],
            decreases self.rules@.len() - i,
        {
            rules.push(RuleInfo { id: self.rules[i].0.clone(), description: self.rules[i].1.description() });
            i += 1;
        }
        RulesetInfo { id: self.id.clone(), rules }
    }
}

/// The per-rule options: rule ids to options, as plain values.
pub open spec fn options_view(options: Seq<(String, Json)>) -> Seq<(Seq<char>, JsonView)> {
    members_view(options)
}

/// Whether rule `id` is enabled: the options hold an entry for it.
pub open spec fn rule_enabled(options: Seq<(Seq<char>, JsonView)>, id: Seq<char>) -> bool {
    lookup(options, id) is Some
}

/// The concatenation of a list of lists.
pub open spec fn flatten<T>(parts: Seq<Seq<T>>) -> Seq<T>
    decreases parts.len(),
{
    if parts.len() == 0 {
        Seq::empty()
    } else {
        flatten(parts.drop_last()) + parts.last()
    }
}

/// `out` is what running the rules `ids` can give: one list of reports per
/// rule, in rule order, empty for each rule whose id the options lack, and none
/// of them masked.
pub open spec fn run_outcome(
    ids: Seq<Seq<char>>,
    options: Seq<(Seq<char>, JsonView)>,
    masking: bool,
    anns: Seq<AnnotationView>,
    parts: Seq<Seq<DiagnosticView>>,
    out: Seq<DiagnosticView>,
) -> bool {
    &&& parts.len() == ids.len()
    &&& out == flatten(parts)
    &&& forall|i: int| 0 <= i < ids.len() && !rule_enabled(options, ids[i]) ==> (#[trigger] parts[i]).len() == 0
    &&& forall|i: int, j: int|
        0 <= i < parts.len() && 0 <= j < parts[i].len() ==> !masked(masking, anns, #[trigger] parts[i][j])
}

/// Runs each rule of `rs` whose id `options` holds, in order, and gathers what
/// they report; rules the options lack are skipped.
pub fn run_ruleset<R: Rule>(uri: &str, text: &str, rs: &Ruleset<R>, options: &Vec<(String, Json)>) -> (r: Vec<Diagnostic>)
    ensures
        exists|parts: Seq<Seq<DiagnosticView>>|
            #[trigger] run_outcome(rs.rule_ids(), options_view(options@), false, Seq::empty(), parts, diagnostic_views(r@)),
{
    let none: Vec<Annotation> = Vec::new();
    proof {
        assert(annotation_views(none@) =~= Seq::<AnnotationView>::empty());
    }
    run_ruleset_with_annotations(uri, text, rs, options, none.as_slice(), None)
}

/// Runs each rule of `rs` whose id `options` holds, in order, with that
/// rule's options; each rule reports through a context that drops what the
/// annotations mask when a parser is given.
pub fn run_ruleset_with_annotations<R: Rule>(
    uri: &str,
    text: &str,
    rs: &Ruleset<R>,
    options: &Vec<(String, Json)>,
    annotations: &[Annotation],
    annotation_parser: Option<&AnnotationParser>,
) -> (r: Vec<Diagnostic>)
    ensures
        exists|parts: Seq<Seq<DiagnosticView>>|
            #[trigger] run_outcome(
                rs.rule_ids(),
                options_view(options@),
                annotation_parser is Some,
                annotation_views(annotations@),
                parts,
                diagnostic_views(r@),
            ),
{
    let ghost ids = rs.rule_ids();
    let ghost opts = options_view(options@);
    let ghost masking = annotation_parser is Some;
    let ghost anns = annotation_views(annotations@);
    let mut all: Vec<Diagnostic> = Vec::new();
    let ghost mut parts: Seq<Seq<DiagnosticView>> = Seq::empty();
    let mut i: usize = 0;
    assert(opts.map_values(|e: (Seq<char>, JsonView)| e.0) =~= key_seq(options@));
    assert(diagnostic_views(all@) =~= flatten(parts));
    while i < rs.len()
        invariant
            0 <= i <= ids.len(),
            ids == rs.rule_ids(),
            opts == options_view(options@),
            opts.map_values(|e: (Seq<char>, JsonView)| e.0) == key_seq(options@),
            masking == (annotation_parser is Some),
            anns == annotation_views(annotations@),
            parts.len() == i,
            diagnostic_views(all@) == flatten(parts),
            forall|k: int| 0 <= k < i && !rule_enabled(opts, ids[k]) ==> (#[trigger] parts[k]).len() == 0,
            forall|k: int, j: int|
                0 <= k < parts.len() && 0 <= j < parts[k].len() ==> !masked(masking, anns, #[trigger] parts[k][j]),
        decreases ids.len() - i,
    {
        let id = rs.rule_id(i);
        match find_key(options, id.as_str()) {
            Some(p) => {
                let opts_i = &options[p].1;
                let mut ctx = RuleContext::new(uri, text, opts_i, annotations, annotation_parser);
                rs.rule(i).check(&mut ctx);
                let found = ctx.into_diagnostics();
                let ghost fv = found@;
                let ghost part = diagnostic_views(found@);
                let ghost before = all@;
                let ghost old_parts = parts;
                let mut found = found;
                all.append(&mut found);
                proof {
                    parts = parts.push(part);
                    assert(diagnostic_views(all@) =~= diagnostic_views(before) + part);
                    assert(parts.drop_last() =~= old_parts);
                    assert forall|k: int, j: int|
                        0 <= k < parts.len() && 0 <= j < parts[k].len() implies !masked(
                        masking,
                        anns,
                        #[trigger] parts[k][j],
                    ) by {
                        if k == i {
                            assert(part[j] == fv[j]@);
                        } else {
                            assert(parts[k] == old_parts[k]);
                        }
                    }
                }
            },
            None => {
                proof {
                    let ghost old_parts = parts;
                    parts = parts.push(Seq::empty());
                    assert(parts.drop_last() =~= old_parts);
                    assert(flatten(parts) =~= flatten(old_parts));
                    assert(lookup(opts, ids[i as int]) is None);
                    assert forall|k: int, j: int|
                        0 <= k < parts.len() && 0 <= j < parts[k].len() implies !masked(
                        masking,
                        anns,
                        #[trigger] parts[k][j],
                    ) by {
                        assert(parts[k] == old_parts[k]);
                    }
                }
            },
        }
        i += 1;
    }
    assert(run_outcome(ids, opts, masking, anns, parts, diagnostic_views(all@)));
    all
}

/// Runs a ruleset over every file of a preprocessing context, in order.
pub fn run_ruleset_with_context<R: Rule>(
    rs: &Ruleset<R>,
    preprocessing_context: &PreprocessingContext,
    options: &Vec<(String, Json)>,
) -> (r: Vec<Diagnostic>)
    ensures
        exists|parts: Seq<Seq<DiagnosticView>>|
            #![trigger flatten(parts)]
            {
                &&& parts.len() == preprocessing_context.files@.len()
                &&& flatten(parts) == diagnostic_views(r@)
                &&& forall|i: int|
                    0 <= i < parts.len() ==> file_outcome(
                        rs,
                        options,
                        None,
                        preprocessing_context.files@[i].content@,
                        #[trigger] parts[i],
                    )
            },
{
    run_ruleset_with_context_and_annotations(rs, preprocessing_context, options, None)
}

/// Runs a ruleset over every file of a preprocessing context, in order; with a
/// parser, each file's annotations are parsed from its content and mask what
/// the rules report. Contents must be filled in: an empty content is analyzed
/// as an empty file.
pub fn run_ruleset_with_context_and_annotations<R: Rule>(
    rs: &Ruleset<R>,
    preprocessing_context: &PreprocessingContext,
    options: &Vec<(String, Json)>,
    annotation_parser: Option<&AnnotationParser>,
) -> (r: Vec<Diagnostic>)
    ensures
        exists|parts: Seq<Seq<DiagnosticView>>|
            #![trigger flatten(parts)]
            {
                &&& parts.len() == preprocessing_context.files@.len()
                &&& flatten(parts) == diagnostic_views(r@)
                &&& forall|i: int|
                    0 <= i < parts.len() ==> file_outcome(
                        rs,
                        options,
                        annotation_parser,
                        preprocessing_context.files@[i].content@,
                        #[trigger] parts[i],
                    )
            },
{
    let files = &preprocessing_context.files;
    let mut all: Vec<Diagnostic> = Vec::new();
    let ghost mut parts: Seq<Seq<DiagnosticView>> = Seq::empty();
    let mut i: usize = 0;
    assert(diagnostic_views(all@) =~= flatten(parts));
    while i < files.len()
        invariant
            0 <= i <= files@.len(),
            parts.len() == i,
            diagnostic_views(all@) == flatten(parts),
            forall|k: int|
                0 <= k < i ==> file_outcome(rs, options, annotation_parser, files@[k].content@, #[trigger] parts[k]),
        decreases files@.len() - i,
    {
        let file = &files[i];
        let annotations: Vec<Annotation> = match annotation_parser {
            Some(p) => p.parse_annotations(file.content.as_str()),
            None => Vec::new(),
        };
        let mut found = run_ruleset_with_annotations(
            file.uri.as_str(),
            file.content.as_str(),
            rs,
            options,
            annotations.as_slice(),
            annotation_parser,
        );
        let ghost part = diagnostic_views(found@);
        let ghost before = all@;
        let ghost old_parts = parts;
        all.append(&mut found);
        proof {
            parts = parts.push(part);
            assert(parts.drop_last() =~= old_parts);
            assert(diagnostic_views(all@) =~= diagnostic_views(before) + part);
            if annotation_parser is None {
                assert(annotation_views(annotations@) =~= Seq::<AnnotationView>::empty());
            }
            let anns = parser_annotations(annotation_parser, files@[i as int].content@);
            assert(annotation_views(annotations@) == anns);
            let sub = choose|sub: Seq<Seq<DiagnosticView>>|
                #[trigger] run_outcome(
                    rs.rule_ids(),
                    options_view(options@),
                    annotation_parser is Some,
                    annotation_views(annotations@),
                    sub,
                    part,
                );
            assert(run_outcome(rs.rule_ids(), options_view(options@), annotation_parser is Some, anns, sub, part));
            assert(file_outcome(rs, options, annotation_parser, files@[i as int].content@, part));
            assert forall|k: int|
                0 <= k < i + 1 implies file_outcome(rs, options, annotation_parser, files@[k].content@, #[trigger] parts[k]) by {
                if k < i {
                    assert(parts[k] == old_parts[k]);
                }
            }
        }
        i += 1;
    }
    all
}

/// `out` is what running `rs` with `options` on a file with text `content`
/// can give, masked by the annotations the parser, if any, finds in it.
pub open spec fn file_outcome<R: Rule>(
    rs: &Ruleset<R>,
    options: &Vec<(String, Json)>,
    parser: Option<&AnnotationParser>,
    content: Seq<char>,
    out: Seq<DiagnosticView>,
) -> bool {
    exists|parts: Seq<Seq<DiagnosticView>>|
        #[trigger] run_outcome(
            rs.rule_ids(),
            options_view(options@),
            parser is Some,
            parser_annotations(parser, content),
            parts,
            out,
        )
}

/// The annotations a parser, if any, finds in a text.
pub open spec fn parser_annotations(parser: Option<&AnnotationParser>, content: Seq<char>) -> Seq<AnnotationView> {
    match parser {
        Some(p) => annotations_of(p.prefixes(), content),
        None => Seq::empty(),
    }
}

/// The default setting of each rule of a ruleset, by rule id.
pub fn ruleset_default_config<R: Rule>(rs: &Ruleset<R>) -> (r: Vec<(String, Json)>)
    ensures
        members_view(r@).map_values(|e: (Seq<char>, JsonView)| e.0) == rs.rule_ids(),
{
    let mut config: Vec<(String, Json)> = Vec::new();
    let mut i: usize = 0;
    while i < rs.len()
        invariant
            0 <= i <= rs.rule_ids().len(),
            config@.len() == i,
            forall|k: int| 0 <= k < i ==> (#[trigger] config@[k]).0@ == rs.rule_ids()[k],
        decreases rs.rule_ids().len() - i,
    {
        config.push((rs.rule_id(i).clone(), rs.rule(i).default_config()));
        i += 1;
    }
    assert(members_view(config@).map_values(|e: (Seq<char>, JsonView)| e.0) =~= rs.rule_ids());
    config
}

} // verus!
