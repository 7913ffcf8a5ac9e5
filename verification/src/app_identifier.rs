//! Application identification: host-name patterns of known applications,
//! turned into anchored regular expressions and matched against the server
//! name of a TLS connection or a DNS name.

use vstd::prelude::*;

use crate::text::{chars_of, push_char, replace_char, replace_char_chars};
use crate::types::FlowKey;

verus! {

/// `regex::Regex`, opaque to proofs.
#[verifier::external_type_specification]
#[verifier::external_body]
pub struct ExRegex(regex::Regex);

/// Whether `regex::Regex::new` accepts `pattern` (its syntax is valid and the
/// compiled program stays within the default size limit).
pub uninterp spec fn regex_compiles(pattern: Seq<char>) -> bool;

/// Whether the regular expression `pattern` finds a match in `text`
/// (`regex::Regex::is_match` on the compiled pattern).
pub uninterp spec fn regex_finds(pattern: Seq<char>, text: Seq<char>) -> bool;

/// A compiled regular expression together with its source text.
struct CompiledPattern {
    source: String,
    regex: regex::Regex,
}

impl View for CompiledPattern {
    type V = Seq<char>;

    closed spec fn view(&self) -> Seq<char> {
        self.source@
    }
}

/// `regex::Regex::new`. Claimed: it succeeds exactly when `regex_compiles`
/// holds of the source, and the compiled expression keeps its source.
#[verifier::external_body]
fn compile_pattern(source: String) -> (r: Option<CompiledPattern>)
    ensures
        r is Some <==> regex_compiles(source@),
        r matches Some(c) ==> c@ == source@,
{
    match regex::Regex::new(&source) {
        Ok(regex) => Some(CompiledPattern { source, regex }),
        Err(_) => None,
    }
}

/// `regex::Regex::is_match`. Claimed: the answer is `regex_finds` of the
/// expression's source and the text.
#[verifier::external_body]
fn pattern_finds(pattern: &CompiledPattern, text: &str) -> (r: bool)
    ensures
        r == regex_finds(pattern@, text@),
{
    pattern.regex.is_match(text)
}

/// An application and the host-name patterns that identify it. A pattern
/// must match a whole name; a `*` in it, with the `.` it becomes escaped
/// like the others (see `pattern_regex`), matches a run of dots.
#[derive(Debug, Clone)]
pub struct AppSignature {
    pub id: String,
    pub name: String,
    pub sni_patterns: Vec<String>,
    pub dns_patterns: Vec<String>,
    pub app_signature: Option<String>,
}

/// The anchored regular expression of a host-name pattern: `*` becomes `.*`,
/// then every `.` is escaped, in that order
/// (so the `.` of an inserted `.*` is escaped too).
pub open spec fn pattern_regex(pattern: Seq<char>) -> Seq<char> {
    seq!['^'] + replace_char(replace_char(pattern, '*', seq!['.', '*']), '.', seq!['\\', '.'])
        + seq!['$']
}

/// Host-name pattern `pattern` compiles and matches `name`.
pub open spec fn pattern_matches(pattern: Seq<char>, name: Seq<char>) -> bool {
    regex_compiles(pattern_regex(pattern)) && regex_finds(pattern_regex(pattern), name)
}

/// Some pattern of `patterns` matches `name`.
pub open spec fn any_pattern_matches(patterns: Seq<String>, name: Seq<char>) -> bool {
    exists|j: int| 0 <= j < patterns.len() && pattern_matches(#[trigger] patterns[j]@, name)
}

/// Some signature in `sigs` has id `id`.
pub open spec fn has_app_id(sigs: Seq<AppSignature>, id: Seq<char>) -> bool {
    exists|k: int| 0 <= k < sigs.len() && #[trigger] sigs[k].id@ == id
}

/// The signatures with the last one of each id kept, in the order of those last ones.
pub open spec fn latest_by_id(sigs: Seq<AppSignature>) -> Seq<AppSignature>
    decreases sigs.len(),
{
    if sigs.len() == 0 {
        sigs
    } else if has_app_id(sigs.drop_first(), sigs[0].id@) {
        latest_by_id(sigs.drop_first())
    } else {
        seq![sigs[0]] + latest_by_id(sigs.drop_first())
    }
}

/// The first signature from index `i` on whose server-name patterns match `name`.
pub open spec fn first_sni_match(table: Seq<AppSignature>, name: Seq<char>, i: int) -> Option<int>
    decreases table.len() - i,
{
    if i < 0 || i >= table.len() {
        None
    } else if any_pattern_matches(table[i].sni_patterns@, name) {
        Some(i)
    } else {
        first_sni_match(table, name, i + 1)
    }
}

/// The first signature from index `i` on whose DNS patterns match `name`.
pub open spec fn first_dns_match(table: Seq<AppSignature>, name: Seq<char>, i: int) -> Option<int>
    decreases table.len() - i,
{
    if i < 0 || i >= table.len() {
        None
    } else if any_pattern_matches(table[i].dns_patterns@, name) {
        Some(i)
    } else {
        first_dns_match(table, name, i + 1)
    }
}

/// The application id and name that a lookup gives for match `m`.
pub open spec fn app_of(table: Seq<AppSignature>, m: Option<int>) -> Option<(String, String)> {
    match m {
        Some(i) => Some((table[i].id, table[i].name)),
        None => None,
    }
}

proof fn lemma_latest_ids(sigs: Seq<AppSignature>)
    ensures
        forall|id: Seq<char>| #[trigger] has_app_id(latest_by_id(sigs), id) == has_app_id(sigs, id),
    decreases sigs.len(),
{
    if sigs.len() > 0 {
        let rest = sigs.drop_first();
        lemma_latest_ids(rest);
        let l = latest_by_id(sigs);
        let lr = latest_by_id(rest);
        assert forall|id: Seq<char>| #[trigger] has_app_id(l, id) == has_app_id(sigs, id) by {
            if has_app_id(rest, id) {
                let k = choose|k: int| 0 <= k < rest.len() && #[trigger] rest[k].id@ == id;
                assert(sigs[k + 1].id@ == id);
            }
            if has_app_id(sigs, id) {
                let k = choose|k: int| 0 <= k < sigs.len() && #[trigger] sigs[k].id@ == id;
                if k > 0 {
                    assert(rest[k - 1].id@ == id);
                }
            }
            if has_app_id(rest, sigs[0].id@) {
                assert(l == lr);
            } else {
                assert(l == seq![sigs[0]] + lr);
                if has_app_id(l, id) {
                    let k = choose|k: int| 0 <= k < l.len() && #[trigger] l[k].id@ == id;
                    if k > 0 {
                        assert(lr[k - 1].id@ == id);
                    }
                }
                if has_app_id(lr, id) {
                    let k = choose|k: int| 0 <= k < lr.len() && #[trigger] lr[k].id@ == id;
                    assert(l[k + 1].id@ == id);
                }
                assert(l[0].id@ == sigs[0].id@);
            }
        }
    }
}

/// No two signatures share an id.
pub open spec fn ids_unique(sigs: Seq<AppSignature>) -> bool {
    forall|i: int, j: int|
        0 <= i < sigs.len() && 0 <= j < sigs.len() && i != j ==> #[trigger] sigs[i].id@
            != #[trigger] sigs[j].id@
}

proof fn lemma_latest_unique(sigs: Seq<AppSignature>)
    ensures
        ids_unique(latest_by_id(sigs)),
    decreases sigs.len(),
{
    if sigs.len() > 0 {
        let rest = sigs.drop_first();
        lemma_latest_unique(rest);
        lemma_latest_ids(rest);
        let lr = latest_by_id(rest);
        if !has_app_id(rest, sigs[0].id@) {
            let l = seq![sigs[0]] + lr;
            assert(latest_by_id(sigs) == l);
            assert(!has_app_id(lr, sigs[0].id@));
            assert forall|i: int, j: int|
                0 <= i < l.len() && 0 <= j < l.len() && i != j implies #[trigger] l[i].id@
                != #[trigger] l[j].id@ by {
                if i == 0 {
                    assert(l[j] == lr[j - 1]);
                } else if j == 0 {
                    assert(l[i] == lr[i - 1]);
                } else {
                    assert(l[i] == lr[i - 1] && l[j] == lr[j - 1]);
                }
            }
        }
    }
}

proof fn lemma_first_sni_in_range(table: Seq<AppSignature>, name: Seq<char>, i: int)
    ensures
        first_sni_match(table, name, i) matches Some(k) ==> i <= k < table.len(),
    decreases table.len() - i,
{
    if 0 <= i < table.len() && !any_pattern_matches(table[i].sni_patterns@, name) {
        lemma_first_sni_in_range(table, name, i + 1);
    }
}

/// The application id and name that a lookup of server name `sni` gives:
/// the first matching application, or the unknown application.
pub open spec fn app_for(sigs: Seq<AppSignature>, sni: Option<Seq<char>>) -> (Seq<char>, Seq<char>) {
    match sni {
        Some(name) => match app_of(sigs, first_sni_match(sigs, name, 0)) {
            Some((id, app_name)) => (id@, app_name@),
            None => (unknown_app_id(), unknown_app_name()),
        },
        None => (unknown_app_id(), unknown_app_name()),
    }
}

/// The id of the first application whose server-name patterns match `name`.
pub open spec fn app_id_for(sigs: Seq<AppSignature>, name: Seq<char>) -> Option<Seq<char>> {
    match app_of(sigs, first_sni_match(sigs, name, 0)) {
        Some((id, _)) => Some(id@),
        None => None,
    }
}

/// The name of the application with id `id`.
pub open spec fn name_of_id(sigs: Seq<AppSignature>, id: Seq<char>) -> Seq<char> {
    sigs[choose|k: int| 0 <= k < sigs.len() && #[trigger] sigs[k].id@ == id].name@
}

/// A DNS-name lookup gives the first signature, in table order, that has
/// some DNS pattern (at any position in its list) matching the name: when
/// signature `i` has a matching pattern at any index `j`, the lookup gives `i`
/// or an earlier signature; and what the lookup gives has a matching pattern
/// while no earlier signature has one.
pub proof fn law_domain_lookup_tries_every_pattern(
    table: Seq<AppSignature>,
    name: Seq<char>,
    i: int,
    j: int,
)
    requires
        0 <= i < table.len(),
        0 <= j < table[i].dns_patterns@.len(),
        pattern_matches(table[i].dns_patterns@[j]@, name),
    ensures
        first_dns_match(table, name, 0) matches Some(k) && 0 <= k <= i && (exists|m: int|
            0 <= m < table[k].dns_patterns@.len() && pattern_matches(
                #[trigger] table[k].dns_patterns@[m]@,
                name,
            )) && forall|e: int, m: int|
            0 <= e < k && 0 <= m < table[e].dns_patterns@.len() ==> !pattern_matches(
                #[trigger] table[e].dns_patterns@[m]@,
                name,
            ),
{
    assert(any_pattern_matches(table[i].dns_patterns@, name));
    lemma_first_dns_from(table, name, 0, i);
    let k = first_dns_match(table, name, 0)->0;
    assert forall|e: int, m: int|
        0 <= e < k && 0 <= m < table[e].dns_patterns@.len() implies !pattern_matches(
        #[trigger] table[e].dns_patterns@[m]@,
        name,
    ) by {
        assert(!any_pattern_matches(table[e].dns_patterns@, name));
    }
}

proof fn lemma_first_dns_from(table: Seq<AppSignature>, name: Seq<char>, s: int, i: int)
    requires
        0 <= s <= i < table.len(),
        any_pattern_matches(table[i].dns_patterns@, name),
    ensures
        first_dns_match(table, name, s) matches Some(k) && s <= k <= i && any_pattern_matches(
            table[k].dns_patterns@,
            name,
        ) && forall|e: int|
            s <= e < k ==> !any_pattern_matches(#[trigger] table[e].dns_patterns@, name),
    decreases i - s,
{
    if !any_pattern_matches(table[s].dns_patterns@, name) {
        lemma_first_dns_from(table, name, s + 1, i);
    }
}

/// A server-name lookup gives the first signature, in table order, that has
/// some server-name pattern (at any position in its list) matching the name:
/// when signature `i` has a matching pattern at any index `j`, the lookup
/// gives `i` or an earlier signature.
pub proof fn law_sni_lookup_tries_every_pattern(
    table: Seq<AppSignature>,
    name: Seq<char>,
    i: int,
    j: int,
)
    requires
        0 <= i < table.len(),
        0 <= j < table[i].sni_patterns@.len(),
        pattern_matches(table[i].sni_patterns@[j]@, name),
    ensures
        first_sni_match(table, name, 0) matches Some(k) && 0 <= k <= i && (exists|m: int|
            0 <= m < table[k].sni_patterns@.len() && pattern_matches(
                #[trigger] table[k].sni_patterns@[m]@,
                name,
            )),
{
    assert(any_pattern_matches(table[i].sni_patterns@, name));
    lemma_first_sni_from(table, name, 0, i);
}

proof fn lemma_first_sni_from(table: Seq<AppSignature>, name: Seq<char>, s: int, i: int)
    requires
        0 <= s <= i < table.len(),
        any_pattern_matches(table[i].sni_patterns@, name),
    ensures
        first_sni_match(table, name, s) matches Some(k) && s <= k <= i && any_pattern_matches(
            table[k].sni_patterns@,
            name,
        ),
    decreases i - s,
{
    if !any_pattern_matches(table[s].sni_patterns@, name) {
        lemma_first_sni_from(table, name, s + 1, i);
    }
}

/// The application of a flow and the id lookup agree: the application that
/// a server name identifies is the one whose id the id lookup gives, with
/// that application's name, and the unknown application when the lookup
/// gives none.
pub proof fn law_app_agrees_with_id(sigs: Seq<AppSignature>, name: Seq<char>)
    requires
        ids_unique(sigs),
    ensures
        app_for(sigs, Some(name)) == match app_id_for(sigs, name) {
            Some(id) => (id, name_of_id(sigs, id)),
            None => (unknown_app_id(), unknown_app_name()),
        },
{
    lemma_first_sni_in_range(sigs, name, 0);
    if let Some(i) = first_sni_match(sigs, name, 0) {
        let id = sigs[i].id@;
        let k = choose|k: int| 0 <= k < sigs.len() && #[trigger] sigs[k].id@ == id;
        assert(sigs[i].id@ == id);
        if k != i {
            assert(sigs[k].id@ != sigs[i].id@);
        }
    }
}

/// The regular expression of a host-name pattern.
pub fn pattern_to_regex(pattern: &str) -> (r: String)
    ensures
        r@ == pattern_regex(pattern@),
{
    let chars = chars_of(pattern);
    let mut dot_star: Vec<char> = Vec::new();
    dot_star.push('.');
    dot_star.push('*');
    let mut escaped_dot: Vec<char> = Vec::new();
    escaped_dot.push('\\');
    escaped_dot.push('.');
    assert(dot_star@ =~= seq!['.', '*']);
    assert(escaped_dot@ =~= seq!['\\', '.']);
    let starred = replace_char_chars(&chars, '*', &dot_star);
    let escaped = replace_char_chars(&starred, '.', &escaped_dot);
    let mut r = String::new();
    push_char(&mut r, '^');
    let mut i: usize = 0;
    while i < escaped.len()
        invariant
            i <= escaped@.len(),
            r@ == seq!['^'] + escaped@.take(i as int),
        decreases escaped@.len() - i,
    {
        push_char(&mut r, escaped[i]);
        i = i + 1;
        assert(r@ =~= seq!['^'] + escaped@.take(i as int));
    }
    push_char(&mut r, '$');
    assert(escaped@.take(escaped@.len() as int) =~= escaped@);
    assert(r@ =~= pattern_regex(pattern@));
    r
}

/// Whether host-name pattern `pattern` matches `name`; a pattern whose
/// regular expression does not compile matches nothing.
fn pattern_matches_name(pattern: &str, name: &str) -> (r: bool)
    ensures
        r == pattern_matches(pattern@, name@),
{
    match compile_pattern(pattern_to_regex(pattern)) {
        Some(compiled) => pattern_finds(&compiled, name),
        None => false,
    }
}

/// The compiled forms of `patterns`, in order, `None` where a pattern's
/// regular expression does not compile.
spec fn compiled_for(patterns: Seq<String>, compiled: Seq<Option<CompiledPattern>>) -> bool {
    &&& compiled.len() == patterns.len()
    &&& forall|j: int|
        0 <= j < patterns.len() ==> match #[trigger] compiled[j] {
            Some(c) => regex_compiles(pattern_regex(patterns[j]@)) && c@ == pattern_regex(
                patterns[j]@,
            ),
            None => !regex_compiles(pattern_regex(patterns[j]@)),
        }
}

fn compile_all(patterns: &Vec<String>) -> (r: Vec<Option<CompiledPattern>>)
    ensures
        compiled_for(patterns@, r@),
{
    let mut r: Vec<Option<CompiledPattern>> = Vec::new();
    let mut j: usize = 0;
    while j < patterns.len()
        invariant
            j <= patterns@.len(),
            compiled_for(patterns@.take(j as int), r@),
        decreases patterns@.len() - j,
    {
        let regex_text = pattern_to_regex(patterns[j].as_str());
        r.push(compile_pattern(regex_text));
        j = j + 1;
        assert forall|k: int| 0 <= k < j implies match #[trigger] r@[k] {
            Some(c) => regex_compiles(pattern_regex(patterns@.take(j as int)[k]@)) && c@
                == pattern_regex(patterns@.take(j as int)[k]@),
            None => !regex_compiles(pattern_regex(patterns@.take(j as int)[k]@)),
        } by {
            if k < j - 1 {
                assert(patterns@.take(j - 1)[k] == patterns@.take(j as int)[k]);
            }
        }
    }
    assert(patterns@.take(patterns@.len() as int) =~= patterns@);
    r
}

spec fn compiled_finds(c: Option<CompiledPattern>, name: Seq<char>) -> bool {
    match c {
        Some(p) => regex_finds(p@, name),
        None => false,
    }
}

fn any_compiled_finds(compiled: &Vec<Option<CompiledPattern>>, name: &str) -> (r: bool)
    ensures
        r == exists|j: int| 0 <= j < compiled@.len() && compiled_finds(#[trigger] compiled@[j], name@),
{
    let mut j: usize = 0;
    while j < compiled.len()
        invariant
            j <= compiled@.len(),
            forall|k: int| 0 <= k < j ==> !compiled_finds(#[trigger] compiled@[k], name@),
        decreases compiled@.len() - j,
    {
        match &compiled[j] {
            Some(c) => {
                if pattern_finds(c, name) {
                    return true;
                }
            },
            None => {},
        }
        j = j + 1;
    }
    false
}

fn any_pattern_matches_name(patterns: &Vec<String>, name: &str) -> (r: bool)
    ensures
        r == any_pattern_matches(patterns@, name@),
{
    let mut j: usize = 0;
    while j < patterns.len()
        invariant
            j <= patterns@.len(),
            forall|k: int| 0 <= k < j ==> !pattern_matches(#[trigger] patterns@[k]@, name@),
        decreases patterns@.len() - j,
    {
        if pattern_matches_name(patterns[j].as_str(), name) {
            return true;
        }
        j = j + 1;
    }
    false
}

/// The keep-last-of-each-id table of `signatures`.
fn latest_signatures(signatures: Vec<AppSignature>) -> (r: Vec<AppSignature>)
    ensures
        r@ == latest_by_id(signatures@),
{
    let ghost all = signatures@;
    let mut rest = signatures;
    let mut kept_rev: Vec<AppSignature> = Vec::new();
    assert(all.skip(all.len() as int) =~= Seq::<AppSignature>::empty());
    while rest.len() > 0
        invariant
            rest@ == all.take(rest@.len() as int),
            rest@.len() <= all.len(),
            kept_rev@ == latest_by_id(all.skip(rest@.len() as int)).reverse(),
        decreases rest@.len(),
    {
        let k = rest.len() - 1;
        let ghost suffix = all.skip(k + 1);
        let sig = rest.pop().unwrap();
        assert(sig == all[k as int]);
        assert(all.skip(k as int).drop_first() =~= suffix);
        assert(all.skip(k as int)[0] == sig);
        proof {
            lemma_latest_ids(suffix);
        }
        let mut seen = false;
        let mut m: usize = 0;
        while m < kept_rev.len()
            invariant
                m <= kept_rev@.len(),
                seen == exists|t: int| 0 <= t < m && #[trigger] kept_rev@[t].id@ == sig.id@,
            decreases kept_rev@.len() - m,
        {
            if kept_rev[m].id == sig.id {
                seen = true;
            }
            m = m + 1;
        }
        proof {
            let l = latest_by_id(suffix);
            assert(seen == has_app_id(l, sig.id@)) by {
                if seen {
                    let t = choose|t: int| 0 <= t < kept_rev@.len() && #[trigger] kept_rev@[t].id@
                        == sig.id@;
                    assert(l[l.len() - 1 - t] == kept_rev@[t]);
                }
                if has_app_id(l, sig.id@) {
                    let t = choose|t: int| 0 <= t < l.len() && #[trigger] l[t].id@ == sig.id@;
                    assert(kept_rev@[l.len() - 1 - t] == l[t]);
                }
            }
        }
        if !seen {
            let ghost before = kept_rev@;
            kept_rev.push(sig);
            assert(kept_rev@ =~= (seq![all[k as int]] + latest_by_id(suffix)).reverse());
        }
        assert(rest@ =~= all.take(k as int));
    }
    assert(all.skip(0) =~= all);
    let mut r: Vec<AppSignature> = Vec::new();
    let ghost full = kept_rev@;
    while kept_rev.len() > 0
        invariant
            full == latest_by_id(all).reverse(),
            kept_rev@ == full.take(kept_rev@.len() as int),
            kept_rev@.len() <= full.len(),
            r@ == full.skip(kept_rev@.len() as int).reverse(),
        decreases kept_rev@.len(),
    {
        let k = kept_rev.len() - 1;
        let sig = kept_rev.pop().unwrap();
        assert(sig == full[k as int]);
        r.push(sig);
        assert(r@ =~= full.skip(k as int).reverse());
        assert(kept_rev@ =~= full.take(k as int));
    }
    assert(full.skip(0).reverse() =~= latest_by_id(all));
    r
}

/// Known applications and the compiled server-name patterns of each.
pub struct AppIdentifier {
    table: Vec<AppSignature>,
    sni_regexes: Vec<Vec<Option<CompiledPattern>>>,
}

impl AppIdentifier {
    #[verifier::type_invariant]
    spec fn well_formed(self) -> bool {
        &&& self.sni_regexes@.len() == self.table@.len()
        &&& forall|i: int|
            0 <= i < self.table@.len() ==> compiled_for(
                #[trigger] self.table@[i].sni_patterns@,
                self.sni_regexes@[i]@,
            )
    }

    /// The known applications, one per id.
    pub closed spec fn signatures(&self) -> Seq<AppSignature> {
        self.table@
    }

    /// An identifier for `signatures`; of several signatures with one id, the
    /// last one counts.
    pub fn new(signatures: Vec<AppSignature>) -> (r: Self)
        ensures
            r.signatures() == latest_by_id(signatures@),
            ids_unique(r.signatures()),
    {
        proof {
            lemma_latest_unique(signatures@);
        }
        let table = latest_signatures(signatures);
        let mut sni_regexes: Vec<Vec<Option<CompiledPattern>>> = Vec::new();
        let mut i: usize = 0;
        while i < table.len()
            invariant
                i <= table@.len(),
                sni_regexes@.len() == i,
                forall|k: int|
                    0 <= k < i ==> compiled_for(
                        #[trigger] table@[k].sni_patterns@,
                        sni_regexes@[k]@,
                    ),
            decreases table@.len() - i,
        {
            sni_regexes.push(compile_all(&table[i].sni_patterns));
            i = i + 1;
        }
        AppIdentifier { table, sni_regexes }
    }

    /// The first application, in table order, one of whose server-name
    /// patterns matches `sni`: its id and name.
    pub fn identify_by_sni(&self, sni: &str) -> (r: Option<(String, String)>)
        ensures
            r == app_of(self.signatures(), first_sni_match(self.signatures(), sni@, 0)),
    {
        proof {
            use_type_invariant(self);
        }
        let mut i: usize = 0;
        while i < self.table.len()
            invariant
                i <= self.table@.len(),
                self.sni_regexes@.len() == self.table@.len(),
                forall|k: int|
                    0 <= k < self.table@.len() ==> compiled_for(
                        #[trigger] self.table@[k].sni_patterns@,
                        self.sni_regexes@[k]@,
                    ),
                first_sni_match(self.table@, sni@, 0) == first_sni_match(
                    self.table@,
                    sni@,
                    i as int,
                ),
            decreases self.table@.len() - i,
        {
            let found = any_compiled_finds(&self.sni_regexes[i], sni);
            let ghost patterns = self.table@[i as int].sni_patterns@;
            let ghost compiled = self.sni_regexes@[i as int]@;
            assert(compiled_for(patterns, compiled));
            assert(found == any_pattern_matches(patterns, sni@)) by {
                if found {
                    let j = choose|j: int|
                        0 <= j < compiled.len() && compiled_finds(#[trigger] compiled[j], sni@);
                    assert(pattern_matches(patterns[j]@, sni@));
                }
                if any_pattern_matches(patterns, sni@) {
                    let j = choose|j: int|
                        0 <= j < patterns.len() && pattern_matches(#[trigger] patterns[j]@, sni@);
                    assert(compiled_finds(compiled[j], sni@));
                }
            }
            if found {
                let sig = &self.table[i];
                return Some((sig.id.clone(), sig.name.clone()));
            }
            i = i + 1;
        }
        None
    }

    /// The first application, in table order, one of whose DNS patterns
    /// matches `domain`: its id and name.
    pub fn identify_by_domain(&self, domain: &str) -> (r: Option<(String, String)>)
        ensures
            r == app_of(self.signatures(), first_dns_match(self.signatures(), domain@, 0)),
    {
        let mut i: usize = 0;
        while i < self.table.len()
            invariant
                i <= self.table@.len(),
                first_dns_match(self.table@, domain@, 0) == first_dns_match(
                    self.table@,
                    domain@,
                    i as int,
                ),
            decreases self.table@.len() - i,
        {
            let sig = &self.table[i];
            if any_pattern_matches_name(&sig.dns_patterns, domain) {
                return Some((sig.id.clone(), sig.name.clone()));
            }
            i = i + 1;
        }
        None
    }

    /// The id and name of every known application, in table order.
    pub fn get_all_apps(&self) -> (r: Vec<(String, String)>)
        ensures
            r@.len() == self.signatures().len(),
            forall|i: int|
                0 <= i < r@.len() ==> #[trigger] r@[i] == (
                    self.signatures()[i].id,
                    self.signatures()[i].name,
                ),
    {
        let mut r: Vec<(String, String)> = Vec::new();
        let mut i: usize = 0;
        while i < self.table.len()
            invariant
                i <= self.table@.len(),
                r@.len() == i,
                forall|k: int|
                    0 <= k < i ==> #[trigger] r@[k] == (self.table@[k].id, self.table@[k].name),
            decreases self.table@.len() - i,
        {
            r.push((self.table[i].id.clone(), self.table[i].name.clone()));
            i = i + 1;
        }
        r
    }
}

/// The id under which unidentified traffic is recorded.
pub open spec fn unknown_app_id() -> Seq<char> {
    "unknown"@
}

/// The display name of unidentified traffic.
pub open spec fn unknown_app_name() -> Seq<char> {
    "未知"@
}

/// The application of a flow: the one its server name identifies, else the
/// unknown application.
pub fn identify_app(identifier: &AppIdentifier, flow: &FlowKey, sni: Option<&str>) -> (r: (
    String,
    String,
))
    ensures
        match sni {
            Some(name) => match app_of(
                identifier.signatures(),
                first_sni_match(identifier.signatures(), name@, 0),
            ) {
                Some(found) => r == found,
                None => r.0@ == unknown_app_id() && r.1@ == unknown_app_name(),
            },
            None => r.0@ == unknown_app_id() && r.1@ == unknown_app_name(),
        },
        (r.0@, r.1@) == app_for(
            identifier.signatures(),
            match sni {
                Some(name) => Some(name@),
                None => None,
            },
        ),
{
    if let Some(name) = sni {
        if let Some((id, app_name)) = identifier.identify_by_sni(name) {
            return (id, app_name);
        }
    }
    ("unknown".to_owned(), "未知".to_owned())
}

/// The id of the application that server name `sni` identifies.
pub fn get_app_id_from_sni(identifier: &AppIdentifier, sni: &str) -> (r: Option<String>)
    ensures
        r == match app_of(identifier.signatures(), first_sni_match(identifier.signatures(), sni@, 0)) {
            Some((id, _)) => Some(id),
            None => None,
        },
        match r {
            Some(id) => Some(id@),
            None => None,
        } == app_id_for(identifier.signatures(), sni@),
{
    match identifier.identify_by_sni(sni) {
        Some((id, _)) => Some(id),
        None => None,
    }
}

} // verus!
