//! Reading strategy documents of every known version.
//!
//! A document is JSON text. Its version is read, the registered steps bring it to the
//! current version one after the other, and the text of the input is kept verbatim.
use crate::domain::dsl::schema_version::{
    current_version, law_current_version_is_written_as_stated, law_versions_are_ordered,
    malformed_version_text, parsed_version, precedes, rank, version_text, SchemaVersion,
};
use crate::domain::dsl::strategy::StrategyDsl;
use crate::text::{concat2, concat3};
use vstd::prelude::*;
use vstd::string::*;

verus! {

/// What a step changes.
#[derive(Clone, Copy, Debug, PartialEq, Eq, Structural)]
pub enum MigrationKind {
    /// Only the minor or patch version differs: a backward-compatible addition.
    Minor,
    /// The major version differs: a breaking change.
    Major,
}

/// The kind of the change between two versions; `None` between equal ones.
pub open spec fn kind_of_bump(from: SchemaVersion, to: SchemaVersion) -> Option<MigrationKind> {
    if from == to {
        None
    } else if from.major == to.major {
        Some(MigrationKind::Minor)
    } else {
        Some(MigrationKind::Major)
    }
}

impl SchemaVersion {
    /// The kind of the change between two versions.
    pub fn bump_kind(from: SchemaVersion, to: SchemaVersion) -> (r: Option<MigrationKind>)
        ensures
            r == kind_of_bump(from, to),
    {
        if from == to {
            None
        } else if from.major == to.major {
            Some(MigrationKind::Minor)
        } else {
            Some(MigrationKind::Major)
        }
    }
}

/// Why a step refused a document.
#[derive(Clone, Debug, PartialEq, Eq)]
pub struct MigrationError(pub String);

impl MigrationError {
    /// The text of the error.
    pub fn to_string(&self) -> (r: String)
        ensures
            r@ == "migration step failed: "@ + self.0@,
    {
        concat2("migration step failed: ", self.0.as_str())
    }
}

/// What a step made of a document: the new text, or why it refused.
pub open spec fn step_view(r: Result<String, MigrationError>) -> Result<Seq<char>, Seq<char>> {
    match r {
        Ok(text) => Ok(text@),
        Err(e) => Err(e.0@),
    }
}

/// The rewriting that a step does. It depends on the document alone.
pub trait MigrationStep {
    /// The document after the step, or why the step refuses it. A verified step says what
    /// it is; of any other, only that it depends on the document alone.
    closed spec fn applied(&self, document: Seq<char>) -> Result<Seq<char>, Seq<char>> {
        arbitrary()
    }

    /// Rewrites a document.
    fn apply(&self, document: &str) -> (r: Result<String, MigrationError>)
        ensures
            step_view(r) == self.applied(document@),
    ;
}

/// A registered step between two versions.
#[derive(Clone, Debug)]
pub struct Migration<S> {
    /// The version that the step starts from.
    pub from: SchemaVersion,
    /// The version that the step leads to.
    pub to: SchemaVersion,
    /// What the step changes.
    pub kind: MigrationKind,
    /// The rewriting of the document.
    pub step: S,
}

// ---------------------------------------------------------------------------
// JSON.
// ---------------------------------------------------------------------------

/// The text member `key` of the JSON object `text`: `None` where there is no such member
/// or it is no text, the parser's message where `text` is not JSON.
pub uninterp spec fn json_text_member(text: Seq<char>, key: Seq<char>) -> Result<
    Option<Seq<char>>,
    Seq<char>,
>;

/// The JSON object `text` with its member `key` set to the text `value`; `None` where
/// `text` is not a JSON object.
pub uninterp spec fn json_with_text_member(
    text: Seq<char>,
    key: Seq<char>,
    value: Seq<char>,
) -> Option<Seq<char>>;

/// What was read of a member, as texts.
pub open spec fn member_view(r: Result<Option<String>, String>) -> Result<
    Option<Seq<char>>,
    Seq<char>,
> {
    match r {
        Ok(Some(s)) => Ok(Some(s@)),
        Ok(None) => Ok(None),
        Err(e) => Err(e@),
    }
}

/// `serde_json::from_str`, then `Value::get` and `Value::as_str`. Claimed: the result
/// depends on the text and the key alone.
#[verifier::external_body]
fn read_text_member(text: &str, key: &str) -> (r: Result<Option<String>, String>)
    ensures
        member_view(r) == json_text_member(text@, key@),
{
    match serde_json::from_str::<serde_json::Value>(text) {
        Ok(value) => Ok(value.get(key).and_then(|v| v.as_str()).map(|s| s.to_owned())),
        Err(e) => Err(e.to_string()),
    }
}

/// `serde_json::Map::insert` between parsing and printing. Claimed: the result depends
/// on the arguments alone; the member then reads back as the text that was set; other
/// members read as before; an object that has a text member at all can be rewritten.
#[verifier::external_body]
fn set_text_member(text: &str, key: &str, value: &str) -> (r: Option<String>)
    ensures
        r is Some <==> json_with_text_member(text@, key@, value@) is Some,
        r matches Some(t) ==> json_with_text_member(text@, key@, value@) == Some(t@),
        r matches Some(t) ==> (json_text_member(t@, key@) matches Ok(Some(v)) && v == value@),
        r matches Some(t) ==> forall|other: Seq<char>|
            other != key@ ==> #[trigger] json_text_member(t@, other) == json_text_member(
                text@,
                other,
            ),
        json_text_member(text@, key@) matches Ok(Some(_)) ==> r is Some,
{
    match serde_json::from_str::<serde_json::Value>(text) {
        Ok(serde_json::Value::Object(mut members)) => {
            members.insert(key.to_owned(), serde_json::Value::String(value.to_owned()));
            Some(serde_json::Value::Object(members).to_string())
        },
        _ => None,
    }
}

/// The step from 1.0.0 to 1.1.0. The newer version only adds to the older one, so
/// nothing but the version changes.
#[derive(Clone, Copy, Debug)]
pub struct IdentityStep;

/// A document with its version set.
pub open spec fn stamped(document: Seq<char>) -> Result<Seq<char>, Seq<char>> {
    match json_with_text_member(document, "schema_version"@, "1.1.0"@) {
        Some(text) => Ok(text),
        None => Err("document is not a JSON object"@),
    }
}

impl MigrationStep for IdentityStep {
    open spec fn applied(&self, document: Seq<char>) -> Result<Seq<char>, Seq<char>> {
        stamped(document)
    }

    /// Sets the version. The document then reads back as one of version 1.1.0, and every
    /// document that had a version is accepted.
    fn apply(&self, document: &str) -> (r: Result<String, MigrationError>)
        ensures
            r matches Ok(text) ==> (json_text_member(text@, "schema_version"@) matches Ok(Some(v))
                && v == "1.1.0"@),
            json_text_member(document@, "schema_version"@) matches Ok(Some(_)) ==> r is Ok,
    {
        match set_text_member(document, "schema_version", "1.1.0") {
            Some(text) => Ok(text),
            None => Err(MigrationError("document is not a JSON object".to_owned())),
        }
    }
}

// ---------------------------------------------------------------------------
// Outcomes.
// ---------------------------------------------------------------------------

/// Why a document was not loaded.
#[derive(Clone, Debug, PartialEq, Eq)]
#[non_exhaustive]
pub enum LoadError {
    /// The document is not JSON.
    Parse(String),
    /// The document has no `schema_version`, or it is not a text.
    MissingVersion,
    /// The `schema_version` is not a version.
    BadVersion(String),
    /// The document is newer than the current version.
    FutureVersion {
        /// The version of the document.
        found: SchemaVersion,
        /// The current version.
        current: SchemaVersion,
    },
    /// No step leads on from a version.
    NoMigrationPath {
        /// The version where the chain ends.
        from: SchemaVersion,
    },
    /// A step refused the document, or does not advance the version.
    MigrationFailed {
        /// The version that the step starts from.
        from: SchemaVersion,
        /// What went wrong.
        message: String,
    },
    /// The current document is not a strategy.
    Deserialize(String),
}

/// The model of [`LoadError`].
pub enum LoadErrorView {
    Parse(Seq<char>),
    MissingVersion,
    BadVersion(Seq<char>),
    FutureVersion { found: SchemaVersion, current: SchemaVersion },
    NoMigrationPath { from: SchemaVersion },
    MigrationFailed { from: SchemaVersion, message: Seq<char> },
    Deserialize(Seq<char>),
}

impl View for LoadError {
    type V = LoadErrorView;

    open spec fn view(&self) -> LoadErrorView {
        match *self {
            LoadError::Parse(s) => LoadErrorView::Parse(s@),
            LoadError::MissingVersion => LoadErrorView::MissingVersion,
            LoadError::BadVersion(s) => LoadErrorView::BadVersion(s@),
            LoadError::FutureVersion { found, current } => LoadErrorView::FutureVersion {
                found,
                current,
            },
            LoadError::NoMigrationPath { from } => LoadErrorView::NoMigrationPath { from },
            LoadError::MigrationFailed { from, message } => LoadErrorView::MigrationFailed {
                from,
                message: message@,
            },
            LoadError::Deserialize(s) => LoadErrorView::Deserialize(s@),
        }
    }
}

/// The text of a load error.
pub open spec fn load_error_text(e: LoadErrorView) -> Seq<char> {
    match e {
        LoadErrorView::Parse(s) => "could not parse document as JSON: "@ + s,
        LoadErrorView::MissingVersion => "document is missing a string `schema_version` field"@,
        LoadErrorView::BadVersion(s) => "malformed `schema_version`: "@ + s,
        LoadErrorView::FutureVersion { found, current } => "document schema_version "@
            + version_text(found) + " is newer than this engine's "@ + version_text(current)
            + "; refusing to load (no forward-compatibility)"@,
        LoadErrorView::NoMigrationPath { from } => "no migration path from schema_version "@
            + version_text(from) + " to CURRENT"@,
        LoadErrorView::MigrationFailed { from, message } => "migration from "@ + version_text(from)
            + " failed: "@ + message,
        LoadErrorView::Deserialize(s) => "could not deserialize the current-version document: "@
            + s,
    }
}

impl LoadError {
    /// The text of the error.
    pub fn to_string(&self) -> (t: String)
        ensures
            t@ == load_error_text(self@),
    {
        match self {
            LoadError::Parse(s) => concat2("could not parse document as JSON: ", s.as_str()),
            LoadError::MissingVersion =>
                "document is missing a string `schema_version` field".to_owned(),
            LoadError::BadVersion(s) => concat2("malformed `schema_version`: ", s.as_str()),
            LoadError::FutureVersion { found, current } => {
                let mut t = concat3(
                    "document schema_version ",
                    found.to_string().as_str(),
                    " is newer than this engine's ",
                );
                t.append(current.to_string().as_str());
                t.append("; refusing to load (no forward-compatibility)");
                t
            },
            LoadError::NoMigrationPath { from } => concat3(
                "no migration path from schema_version ",
                from.to_string().as_str(),
                " to CURRENT",
            ),
            LoadError::MigrationFailed { from, message } => {
                let mut t = concat3("migration from ", from.to_string().as_str(), " failed: ");
                t.append(message.as_str());
                t
            },
            LoadError::Deserialize(s) => concat2(
                "could not deserialize the current-version document: ",
                s.as_str(),
            ),
        }
    }
}

/// The version that was read of a document, or why there is none.
pub open spec fn detected(member: Result<Option<Seq<char>>, Seq<char>>) -> Result<
    SchemaVersion,
    LoadErrorView,
> {
    match member {
        Err(message) => Err(LoadErrorView::Parse(message)),
        Ok(None) => Err(LoadErrorView::MissingVersion),
        Ok(Some(raw)) => match parsed_version(raw) {
            Some(v) => Ok(v),
            None => Err(LoadErrorView::BadVersion(malformed_version_text(raw))),
        },
    }
}

/// A version, or the model of an error.
pub open spec fn version_view(r: Result<SchemaVersion, LoadError>) -> Result<
    SchemaVersion,
    LoadErrorView,
> {
    match r {
        Ok(v) => Ok(v),
        Err(e) => Err(e@),
    }
}

/// Decides what a read of the version member means.
pub fn detect_version(member: Result<Option<String>, String>) -> (r: Result<
    SchemaVersion,
    LoadError,
>)
    ensures
        version_view(r) == detected(member_view(member)),
{
    match member {
        Err(message) => Err(LoadError::Parse(message)),
        Ok(None) => Err(LoadError::MissingVersion),
        Ok(Some(raw)) => match SchemaVersion::parse(raw.as_str()) {
            Ok(v) => Ok(v),
            Err(e) => Err(LoadError::BadVersion(e.to_string())),
        },
    }
}

/// The message about a step that does not lead to a later version.
pub open spec fn stalled_text(version: SchemaVersion, next: SchemaVersion) -> Seq<char> {
    "migration registry does not advance toward CURRENT (step "@ + version_text(version) + " -> "@
        + version_text(next) + " is non-advancing or cyclic)"@
}

fn stalled_message(version: SchemaVersion, next: SchemaVersion) -> (t: String)
    ensures
        t@ == stalled_text(version, next),
{
    let mut t = concat3(
        "migration registry does not advance toward CURRENT (step ",
        version.to_string().as_str(),
        " -> ",
    );
    t.append(next.to_string().as_str());
    t.append(" is non-advancing or cyclic)");
    t
}

/// The first of the first `n` steps that starts from a version.
pub open spec fn step_from<S>(
    migrations: Seq<Migration<S>>,
    version: SchemaVersion,
    n: int,
) -> Option<Migration<S>>
    decreases n,
{
    if n <= 0 {
        None
    } else {
        match step_from(migrations, version, n - 1) {
            Some(m) => Some(m),
            None => if migrations[n - 1].from == version {
                Some(migrations[n - 1])
            } else {
                None
            },
        }
    }
}

/// What the steps make of a document of a version: each step must lead to a later
/// version, and the last one to the current version.
pub open spec fn chain<S: MigrationStep>(
    migrations: Seq<Migration<S>>,
    version: SchemaVersion,
    document: Seq<char>,
) -> Result<Seq<char>, LoadErrorView>
    decreases 0x1_0000_0000_0000 - rank(version),
{
    if version == current_version() {
        Ok(document)
    } else {
        match step_from(migrations, version, migrations.len() as int) {
            None => Err(LoadErrorView::NoMigrationPath { from: version }),
            Some(m) => match m.step.applied(document) {
                Err(message) => Err(LoadErrorView::MigrationFailed { from: version, message }),
                Ok(next) => if rank(version) < rank(m.to) {
                    chain(migrations, m.to, next)
                } else {
                    Err(
                        LoadErrorView::MigrationFailed {
                            from: version,
                            message: stalled_text(version, m.to),
                        },
                    )
                },
            },
        }
    }
}

/// The current document that a document becomes, the version it was written at, and
/// whether any step was applied.
pub open spec fn loaded_document<S: MigrationStep>(
    migrations: Seq<Migration<S>>,
    document: Seq<char>,
) -> Result<(Seq<char>, SchemaVersion, bool), LoadErrorView> {
    match detected(json_text_member(document, "schema_version"@)) {
        Err(e) => Err(e),
        Ok(from) => if precedes(current_version(), from) {
            Err(LoadErrorView::FutureVersion { found: from, current: current_version() })
        } else if from == current_version() {
            Ok((document, from, false))
        } else {
            match chain(migrations, from, document) {
                Ok(text) => Ok((text, from, true)),
                Err(e) => Err(e),
            }
        },
    }
}

/// A document at the current version, ready to be read as a strategy.
#[derive(Clone, Debug, PartialEq, Eq)]
pub struct Migrated {
    /// The JSON text at the current version.
    pub document: String,
    /// The input, verbatim.
    pub dsl_original: String,
    /// The version that the input was written at.
    pub from: SchemaVersion,
    /// Whether any step was applied.
    pub migrated: bool,
}

/// A loaded strategy, not validated.
#[derive(Clone, Debug, PartialEq, Eq)]
pub struct Loaded {
    /// The strategy.
    pub dsl: StrategyDsl,
    /// The input, verbatim.
    pub dsl_original: String,
    /// The version that the input was written at.
    pub from: SchemaVersion,
    /// Whether any step was applied.
    pub migrated: bool,
}

impl Migrated {
    /// Finishes a load with what reading the current document as a strategy gave.
    pub fn finish(self, read: Result<StrategyDsl, String>) -> (r: Result<Loaded, LoadError>)
        ensures
            match read {
                Ok(dsl) => r matches Ok(loaded) && loaded.dsl == dsl && loaded.dsl_original
                    == self.dsl_original && loaded.from == self.from && loaded.migrated
                    == self.migrated,
                Err(message) => r matches Err(e) && e@ == LoadErrorView::Deserialize(message@),
            },
    {
        match read {
            Ok(dsl) => Ok(
                Loaded {
                    dsl,
                    dsl_original: self.dsl_original,
                    from: self.from,
                    migrated: self.migrated,
                },
            ),
            Err(message) => Err(LoadError::Deserialize(message)),
        }
    }
}

/// A text, or the model of an error.
pub open spec fn text_view(r: Result<String, LoadError>) -> Result<Seq<char>, LoadErrorView> {
    match r {
        Ok(text) => Ok(text@),
        Err(e) => Err(e@),
    }
}

/// The registry of steps.
#[derive(Clone, Debug)]
pub struct Migrator<S> {
    migrations: Vec<Migration<S>>,
}

impl<S> View for Migrator<S> {
    type V = Seq<Migration<S>>;

    closed spec fn view(&self) -> Seq<Migration<S>> {
        self.migrations@
    }
}

/// The steps of [`Migrator::v1`].
pub open spec fn v1_steps() -> Seq<Migration<IdentityStep>> {
    seq![
        Migration {
            from: SchemaVersion { major: 1, minor: 0, patch: 0 },
            to: SchemaVersion { major: 1, minor: 1, patch: 0 },
            kind: MigrationKind::Minor,
            step: IdentityStep,
        },
    ]
}

impl Migrator<IdentityStep> {
    /// The registry of the released versions: the one step from 1.0.0 to 1.1.0.
    pub fn v1() -> (r: Migrator<IdentityStep>)
        ensures
            r@ == v1_steps(),
            r@.len() == 1,
            r@[0].from == (SchemaVersion { major: 1, minor: 0, patch: 0 }),
            r@[0].to == (SchemaVersion { major: 1, minor: 1, patch: 0 }),
            r@[0].kind == MigrationKind::Minor,
    {
        let mut migrations: Vec<Migration<IdentityStep>> = Vec::new();
        migrations.push(
            Migration {
                from: SchemaVersion { major: 1, minor: 0, patch: 0 },
                to: SchemaVersion { major: 1, minor: 1, patch: 0 },
                kind: MigrationKind::Minor,
                step: IdentityStep,
            },
        );
        assert(migrations@ =~= v1_steps());
        Migrator { migrations }
    }
}

impl<S: MigrationStep> Migrator<S> {
    /// A registry of the given steps. Of several steps from one version the first counts.
    pub fn with_migrations(migrations: Vec<Migration<S>>) -> (r: Migrator<S>)
        ensures
            r@ == migrations@,
    {
        Migrator { migrations }
    }

    /// The registered steps.
    pub fn migrations(&self) -> (r: &Vec<Migration<S>>)
        ensures
            r@ == self@,
    {
        &self.migrations
    }

    /// The position of the first step from a version.
    fn find(&self, version: SchemaVersion) -> (r: Option<usize>)
        ensures
            match r {
                Some(i) => i < self@.len() && step_from(self@, version, self@.len() as int)
                    == Some(self@[i as int]),
                None => step_from(self@, version, self@.len() as int) is None,
            },
    {
        let mut i: usize = 0;
        while i < self.migrations.len()
            invariant
                i <= self@.len(),
                self@.len() == self.migrations@.len(),
                step_from(self@, version, i as int) is None,
            decreases self@.len() - i,
        {
            if self.migrations[i].from == version {
                proof {
                    lemma_first_stays(self@, version, i as int + 1, self@.len() as int);
                }
                return Some(i);
            }
            i = i + 1;
        }
        None
    }

    /// Brings a document of a version to the current version, step by step.
    pub fn resolve_and_apply(&self, document: &str, start: SchemaVersion) -> (r: Result<
        String,
        LoadError,
    >)
        ensures
            text_view(r) == chain(self@, start, document@),
    {
        let current = SchemaVersion::current();
        let mut version = start;
        let mut text = document.to_owned();
        while version != current
            invariant
                current == current_version(),
                chain(self@, start, document@) == chain(self@, version, text@),
            decreases 0x1_0000_0000_0000 - rank(version),
        {
            let i = match self.find(version) {
                Some(i) => i,
                None => {
                    return Err(LoadError::NoMigrationPath { from: version });
                },
            };
            let migration = &self.migrations[i];
            match migration.step.apply(text.as_str()) {
                Err(e) => {
                    return Err(LoadError::MigrationFailed { from: version, message: e.0 });
                },
                Ok(next) => {
                    text = next;
                },
            }
            let next = migration.to;
            proof {
                law_versions_are_ordered(version, next);
            }
            if !(version < next) {
                return Err(
                    LoadError::MigrationFailed {
                        from: version,
                        message: stalled_message(version, next),
                    },
                );
            }
            version = next;
        }
        Ok(text)
    }

    /// Brings a document to the current version and keeps `original` as its input.
    pub fn load_value(&self, document: &str, original: &str) -> (r: Result<Migrated, LoadError>)
        ensures
            match loaded_document(self@, document@) {
                Ok((text, from, migrated)) => r matches Ok(m) && m.document@ == text
                    && m.dsl_original@ == original@ && m.from == from && m.migrated == migrated,
                Err(view) => r matches Err(e) && e@ == view,
            },
    {
        let from = match detect_version(read_text_member(document, "schema_version")) {
            Ok(v) => v,
            Err(e) => {
                return Err(e);
            },
        };
        let current = SchemaVersion::current();
        proof {
            law_versions_are_ordered(current, from);
            law_versions_are_ordered(from, current);
        }
        if current < from {
            return Err(LoadError::FutureVersion { found: from, current });
        }
        let migrated = from < current;
        let text = if migrated {
            match self.resolve_and_apply(document, from) {
                Ok(text) => text,
                Err(e) => {
                    return Err(e);
                },
            }
        } else {
            document.to_owned()
        };
        Ok(Migrated { document: text, dsl_original: original.to_owned(), from, migrated })
    }

    /// Brings a document to the current version. The input is kept verbatim.
    pub fn load(&self, json: &str) -> (r: Result<Migrated, LoadError>)
        ensures
            match loaded_document(self@, json@) {
                Ok((text, from, migrated)) => r matches Ok(m) && m.document@ == text
                    && m.dsl_original@ == json@ && m.from == from && m.migrated == migrated,
                Err(view) => r matches Err(e) && e@ == view,
            },
    {
        self.load_value(json, json)
    }
}

proof fn lemma_first_stays<S>(
    migrations: Seq<Migration<S>>,
    version: SchemaVersion,
    n: int,
    m: int,
)
    requires
        0 <= n <= m,
        step_from(migrations, version, n) is Some,
    ensures
        step_from(migrations, version, m) == step_from(migrations, version, n),
    decreases m,
{
    if n < m {
        lemma_first_stays(migrations, version, n, m - 1);
    }
}

// ---------------------------------------------------------------------------
// Laws.
// ---------------------------------------------------------------------------

/// A document at the current version is loaded as it stands, whatever the registry.
pub proof fn law_current_documents_are_kept<S: MigrationStep>(
    migrations: Seq<Migration<S>>,
    document: Seq<char>,
)
    requires
        detected(json_text_member(document, "schema_version"@)) == Ok::<
            SchemaVersion,
            LoadErrorView,
        >(current_version()),
    ensures
        loaded_document(migrations, document) == Ok::<
            (Seq<char>, SchemaVersion, bool),
            LoadErrorView,
        >((document, current_version(), false)),
{
}

/// A document newer than the current version is never loaded, whatever the registry:
/// the same major version is no exception.
pub proof fn law_newer_documents_are_refused<S: MigrationStep>(
    migrations: Seq<Migration<S>>,
    document: Seq<char>,
    found: SchemaVersion,
)
    requires
        detected(json_text_member(document, "schema_version"@)) == Ok::<
            SchemaVersion,
            LoadErrorView,
        >(found),
        precedes(current_version(), found),
    ensures
        loaded_document(migrations, document) == Err::<
            (Seq<char>, SchemaVersion, bool),
            LoadErrorView,
        >(LoadErrorView::FutureVersion { found, current: current_version() }),
{
}

/// Only the current version is reached: what a chain of steps delivers comes from a
/// step that leads to the current version, or is the document itself at that version.
pub proof fn law_chain_ends_at_the_current_version<S: MigrationStep>(
    migrations: Seq<Migration<S>>,
    version: SchemaVersion,
    document: Seq<char>,
)
    requires
        chain(migrations, version, document) is Ok,
        version != current_version(),
    ensures
        exists|i: int, before: Seq<char>|
            0 <= i < migrations.len() && #[trigger] migrations[i].to == current_version()
                && #[trigger] migrations[i].step.applied(before) == Ok::<Seq<char>, Seq<char>>(
                chain(migrations, version, document)->Ok_0,
            ),
    decreases 0x1_0000_0000_0000 - rank(version),
{
    lemma_step_is_registered(migrations, version, migrations.len() as int);
    let i = choose|i: int|
        0 <= i < migrations.len() && step_from(migrations, version, migrations.len() as int)
            == Some(#[trigger] migrations[i]);
    let m = migrations[i];
    let next = m.step.applied(document)->Ok_0;
    assert(chain(migrations, version, document) == chain(migrations, m.to, next));
    if m.to == current_version() {
        assert(chain(migrations, m.to, next) == Ok::<Seq<char>, LoadErrorView>(next));
        assert(migrations[i].to == current_version());
        assert(migrations[i].step.applied(document) == Ok::<Seq<char>, Seq<char>>(next));
    } else {
        law_chain_ends_at_the_current_version(migrations, m.to, next);
    }
}

proof fn lemma_step_is_registered<S>(
    migrations: Seq<Migration<S>>,
    version: SchemaVersion,
    n: int,
)
    requires
        0 <= n <= migrations.len(),
        step_from(migrations, version, n) is Some,
    ensures
        exists|i: int|
            0 <= i < n && step_from(migrations, version, n) == Some(#[trigger] migrations[i])
                && migrations[i].from == version,
    decreases n,
{
    if step_from(migrations, version, n - 1) is Some {
        lemma_step_is_registered(migrations, version, n - 1);
        let i = choose|i: int|
            0 <= i < n - 1 && step_from(migrations, version, n - 1) == Some(
                #[trigger] migrations[i],
            ) && migrations[i].from == version;
        assert(step_from(migrations, version, n) == Some(migrations[i]));
    } else {
        assert(step_from(migrations, version, n) == Some(migrations[n - 1]));
    }
}

/// A step that does not lead to a later version fails the load of a document at its
/// start: a registry that stands still or turns back never loops.
pub proof fn law_steps_must_advance<S: MigrationStep>(
    migrations: Seq<Migration<S>>,
    version: SchemaVersion,
    document: Seq<char>,
)
    requires
        version != current_version(),
        step_from(migrations, version, migrations.len() as int) matches Some(m) && !precedes(
            version,
            m.to,
        ),
    ensures
        chain(migrations, version, document) matches Err(e) && e is MigrationFailed,
{
    let m = step_from(migrations, version, migrations.len() as int)->0;
    law_versions_are_ordered(version, m.to);
}

/// The registry of the released versions brings a document of version 1.0.0 to the
/// current version by setting its version and nothing else.
pub proof fn law_v1_stamps_old_documents(document: Seq<char>, text: Seq<char>)
    requires
        detected(json_text_member(document, "schema_version"@)) == Ok::<
            SchemaVersion,
            LoadErrorView,
        >(SchemaVersion { major: 1, minor: 0, patch: 0 }),
        json_with_text_member(document, "schema_version"@, "1.1.0"@) == Some(text),
    ensures
        loaded_document(v1_steps(), document) == Ok::<
            (Seq<char>, SchemaVersion, bool),
            LoadErrorView,
        >((text, SchemaVersion { major: 1, minor: 0, patch: 0 }, true)),
{
    let old = SchemaVersion { major: 1, minor: 0, patch: 0 };
    let steps = v1_steps();
    assert(step_from(steps, old, 0) is None);
    assert(step_from(steps, old, 1) == Some(steps[0]));
    assert(chain(steps, current_version(), text) == Ok::<Seq<char>, LoadErrorView>(text));
}

/// A document that was stamped is a current one: loading it again changes nothing,
/// whatever the registry.
pub proof fn law_stamped_documents_are_current<S: MigrationStep>(
    migrations: Seq<Migration<S>>,
    document: Seq<char>,
)
    requires
        json_text_member(document, "schema_version"@) matches Ok(Some(v)) && v == "1.1.0"@,
    ensures
        loaded_document(migrations, document) == Ok::<
            (Seq<char>, SchemaVersion, bool),
            LoadErrorView,
        >((document, current_version(), false)),
{
    law_current_version_is_written_as_stated();
}

/// Of the registered steps from a version the first one counts; without one there is none.
pub proof fn law_first_registered_step_counts<S>(
    migrations: Seq<Migration<S>>,
    version: SchemaVersion,
    i: int,
)
    ensures
        0 <= i < migrations.len() && migrations[i].from == version && (forall|j: int|
            0 <= j < i ==> (#[trigger] migrations[j]).from != version) ==> step_from(
            migrations,
            version,
            migrations.len() as int,
        ) == Some(migrations[i]),
        (forall|j: int| 0 <= j < migrations.len() ==> (#[trigger] migrations[j]).from != version)
            ==> step_from(migrations, version, migrations.len() as int) is None,
{
    if 0 <= i < migrations.len() && migrations[i].from == version && (forall|j: int|
        0 <= j < i ==> (#[trigger] migrations[j]).from != version) {
        lemma_no_step(migrations, version, i);
        assert(step_from(migrations, version, i + 1) == Some(migrations[i]));
        lemma_first_stays(migrations, version, i + 1, migrations.len() as int);
    }
    if forall|j: int| 0 <= j < migrations.len() ==> (#[trigger] migrations[j]).from != version {
        lemma_no_step(migrations, version, migrations.len() as int);
    }
}

proof fn lemma_no_step<S>(migrations: Seq<Migration<S>>, version: SchemaVersion, n: int)
    requires
        0 <= n <= migrations.len(),
        forall|j: int| 0 <= j < n ==> (#[trigger] migrations[j]).from != version,
    ensures
        step_from(migrations, version, n) is None,
    decreases n,
{
    if n > 0 {
        lemma_no_step(migrations, version, n - 1);
        assert(migrations[n - 1].from != version);
    }
}

/// One step of a load. A document of an older version is rewritten by the first step from
/// its version and then loaded from where the step leads; what the step refuses is refused
/// with its message; and without a step there is no path. A current document is done.
pub proof fn law_documents_go_step_by_step<S: MigrationStep>(
    migrations: Seq<Migration<S>>,
    version: SchemaVersion,
    document: Seq<char>,
    i: int,
)
    ensures
        version == (SchemaVersion { major: 1, minor: 1, patch: 0 }) ==> chain(
            migrations,
            version,
            document,
        ) == Ok::<Seq<char>, LoadErrorView>(document),
        version != (SchemaVersion { major: 1, minor: 1, patch: 0 }) && 0 <= i < migrations.len()
            && migrations[i].from == version && (forall|j: int|
            0 <= j < i ==> (#[trigger] migrations[j]).from != version) ==> {
            let m = migrations[i];
            let done = chain(migrations, version, document);
            &&& m.step.applied(document) matches Err(message) ==> done == Err::<
                Seq<char>,
                LoadErrorView,
            >(LoadErrorView::MigrationFailed { from: version, message })
            &&& m.step.applied(document) is Ok && precedes(version, m.to) ==> done
                == chain(migrations, m.to, m.step.applied(document)->Ok_0)
        },
        version != (SchemaVersion { major: 1, minor: 1, patch: 0 }) && (forall|j: int|
            0 <= j < migrations.len() ==> (#[trigger] migrations[j]).from != version) ==> chain(
            migrations,
            version,
            document,
        ) == Err::<Seq<char>, LoadErrorView>(LoadErrorView::NoMigrationPath { from: version }),
{
    law_first_registered_step_counts(migrations, version, i);
    if 0 <= i < migrations.len() {
        law_versions_are_ordered(version, migrations[i].to);
    }
}

/// A document says its version in its `schema_version`: any version is read back from its
/// text; a document that is not JSON is reported as such, one without the member too.
pub proof fn law_versions_are_detected(v: SchemaVersion, message: Seq<char>, raw: Seq<char>)
    ensures
        detected(Ok(Some(version_text(v)))) == Ok::<SchemaVersion, LoadErrorView>(v),
        detected(Ok(None)) == Err::<SchemaVersion, LoadErrorView>(LoadErrorView::MissingVersion),
        detected(Err(message)) == Err::<SchemaVersion, LoadErrorView>(
            LoadErrorView::Parse(message),
        ),
        parsed_version(raw) is None ==> (detected(Ok(Some(raw))) matches Err(e)
            && e is BadVersion),
{
    crate::domain::dsl::schema_version::law_version_text_reads_back(v);
}

/// A document older than the current version is brought to it by the steps, with the version
/// that it was written at.
pub proof fn law_older_documents_are_migrated<S: MigrationStep>(
    migrations: Seq<Migration<S>>,
    document: Seq<char>,
    found: SchemaVersion,
)
    requires
        detected(json_text_member(document, "schema_version"@)) == Ok::<
            SchemaVersion,
            LoadErrorView,
        >(found),
        precedes(found, current_version()),
    ensures
        chain(migrations, found, document) matches Ok(text) ==> loaded_document(
            migrations,
            document,
        ) == Ok::<(Seq<char>, SchemaVersion, bool), LoadErrorView>((text, found, true)),
        chain(migrations, found, document) matches Err(e) ==> loaded_document(migrations, document)
            == Err::<(Seq<char>, SchemaVersion, bool), LoadErrorView>(e),
{
}

/// A change of the major number is a major one, any other change a minor one, and there is
/// none between equal versions.
pub proof fn law_kinds_of_changes(from: SchemaVersion, to: SchemaVersion)
    ensures
        from.major != to.major ==> kind_of_bump(from, to) == Some(MigrationKind::Major),
        from.major == to.major && (from.minor != to.minor || from.patch != to.patch)
            ==> kind_of_bump(from, to) == Some(MigrationKind::Minor),
        from.major == to.major && from.minor == to.minor && from.patch == to.patch
            ==> kind_of_bump(from, to) is None,
        kind_of_bump(from, to) == kind_of_bump(to, from),
{
}

} // verus!
