//! The decisions of a terminal browser over an S3 bucket: its settings, its state and the lines
//! that its panes show.
use vstd::prelude::*;

verus! {

/// Settings of an S3 service.
#[derive(Debug)]
pub struct S3Config {
    pub endpoint: String,
    pub access_key_id: String,
    pub secret_access_key: String,
    pub bucket: String,
    pub region: String,
}

/// The settings file's contents.
#[derive(Debug)]
pub struct Config {
    pub endpoint: String,
    pub id: String,
    pub key: String,
    pub bucket: String,
    pub region: String,
}

/// The environment variables that hold S3 settings, each as found (`None` where unset or
/// unreadable).
#[derive(Debug)]
pub struct S3EnvVars {
    /// `AWS_ENDPOINT`
    pub endpoint: Option<String>,
    /// `AWS_ACCESS_KEY_ID`
    pub access_key_id: Option<String>,
    /// `AWS_SECRET_ACCESS_KEY`
    pub secret_access_key: Option<String>,
    /// `AWS_BUCKET`
    pub bucket: Option<String>,
    /// `AWS_REGION`
    pub region: Option<String>,
}

/// A required environment variable.
#[derive(Debug, Clone, Copy, PartialEq, Eq, Structural)]
pub enum EnvVar {
    Endpoint,
    AccessKeyId,
    SecretAccessKey,
    Bucket,
}

/// Errors of the browser's settings.
#[derive(Debug, Clone, Copy, PartialEq, Eq, Structural)]
pub enum ConfigError {
    /// A required environment variable was unset or unreadable.
    MissingVar(EnvVar),
}

/// The region used where none is set.
pub open spec fn default_region() -> Seq<char> {
    seq!['a', 'u', 't', 'o']
}

/// The S3 settings that the settings file gives.
pub fn s3_try_from_config(config: Config) -> (r: S3Config)
    ensures
        r.endpoint@ == config.endpoint@,
        r.access_key_id@ == config.id@,
        r.secret_access_key@ == config.key@,
        r.bucket@ == config.bucket@,
        r.region@ == config.region@,
{
    S3Config {
        endpoint: config.endpoint,
        access_key_id: config.id,
        secret_access_key: config.key,
        bucket: config.bucket,
        region: config.region,
    }
}

/// The S3 settings that the environment gives. The variables are required in the order
/// endpoint, access key id, secret access key, bucket, and the first one missing is the error;
/// the region defaults to `auto`.
pub fn s3_try_from_env(vars: S3EnvVars) -> (r: Result<S3Config, ConfigError>)
    ensures
        vars.endpoint is None ==> r == Err::<S3Config, ConfigError>(
            ConfigError::MissingVar(EnvVar::Endpoint),
        ),
        vars.endpoint is Some && vars.access_key_id is None ==> r == Err::<S3Config, ConfigError>(
            ConfigError::MissingVar(EnvVar::AccessKeyId),
        ),
        vars.endpoint is Some && vars.access_key_id is Some && vars.secret_access_key is None
            ==> r == Err::<S3Config, ConfigError>(ConfigError::MissingVar(EnvVar::SecretAccessKey)),
        vars.endpoint is Some && vars.access_key_id is Some && vars.secret_access_key is Some
            && vars.bucket is None ==> r == Err::<S3Config, ConfigError>(
            ConfigError::MissingVar(EnvVar::Bucket),
        ),
        r is Ok <==> (vars.endpoint is Some && vars.access_key_id is Some
            && vars.secret_access_key is Some && vars.bucket is Some),
        r matches Ok(c) ==> {
            &&& c.endpoint@ == vars.endpoint.unwrap()@
            &&& c.access_key_id@ == vars.access_key_id.unwrap()@
            &&& c.secret_access_key@ == vars.secret_access_key.unwrap()@
            &&& c.bucket@ == vars.bucket.unwrap()@
            &&& c.region@ == match vars.region {
                Some(s) => s@,
                None => default_region(),
            }
        },
{
    let endpoint = match vars.endpoint {
        Some(s) => s,
        None => return Err(ConfigError::MissingVar(EnvVar::Endpoint)),
    };
    let access_key_id = match vars.access_key_id {
        Some(s) => s,
        None => return Err(ConfigError::MissingVar(EnvVar::AccessKeyId)),
    };
    let secret_access_key = match vars.secret_access_key {
        Some(s) => s,
        None => return Err(ConfigError::MissingVar(EnvVar::SecretAccessKey)),
    };
    let bucket = match vars.bucket {
        Some(s) => s,
        None => return Err(ConfigError::MissingVar(EnvVar::Bucket)),
    };
    let region = match vars.region {
        Some(s) => s,
        None => {
            proof {
                reveal_strlit("auto");
            }
            String::from_str("auto")
        },
    };
    Ok(S3Config { endpoint, access_key_id, secret_access_key, bucket, region })
}

/// The browser's state seen as plain values.
pub struct AppView {
    pub bucket: Seq<char>,
    pub endpoint: Seq<char>,
    pub current_path: Seq<char>,
    pub exit: bool,
    pub cursor: usize,
    pub parent_cursor: usize,
    pub parent_entries: Seq<Seq<char>>,
    pub current_entries: Seq<Seq<char>>,
}

/// The names of a listing as plain values.
pub open spec fn names_view(v: Seq<String>) -> Seq<Seq<char>> {
    v.map_values(|s: String| s@)
}

/// The names of borrowed strings as plain values.
pub open spec fn strs_view(v: Seq<&str>) -> Seq<Seq<char>> {
    v.map_values(|s: &str| s@)
}

/// The names of a listing are all of its strings, one for each entry, in the same order.
pub proof fn law_listing_names(v: Seq<String>)
    ensures
        names_view(v).len() == v.len(),
        forall|i: int| 0 <= i < v.len() ==> #[trigger] names_view(v)[i] == v[i]@,
{
}

/// The prefix of every location the browser shows.
pub open spec fn location_prefix() -> Seq<char> {
    seq!['s', '3', ':', '/', '/']
}

/// The state of the bucket browser: where it stands and what the two panes list.
#[derive(Debug)]
pub struct App {
    bucket: String,
    endpoint: String,
    current_path: String,
    exit: bool,
    cursor: usize,
    parent_cursor: usize,
    parent_entries: Vec<String>,
    current_entries: Vec<String>,
}

impl View for App {
    type V = AppView;

    closed spec fn view(&self) -> AppView {
        AppView {
            bucket: self.bucket@,
            endpoint: self.endpoint@,
            current_path: self.current_path@,
            exit: self.exit,
            cursor: self.cursor,
            parent_cursor: self.parent_cursor,
            parent_entries: names_view(self.parent_entries@),
            current_entries: names_view(self.current_entries@),
        }
    }
}

/// The names of a listing, borrowed.
fn borrow_names(v: &Vec<String>) -> (r: Vec<&str>)
    ensures
        strs_view(r@) == names_view(v@),
        r@.len() == v@.len(),
        forall|i: int| 0 <= i < v@.len() ==> (#[trigger] r@[i])@ == v@[i]@,
{
    let mut r: Vec<&str> = Vec::new();
    let mut i: usize = 0;
    while i < v.len()
        invariant
            i <= v@.len(),
            strs_view(r@) == names_view(v@.take(i as int)),
        decreases v@.len() - i,
    {
        let ghost prev = r@;
        let name = v[i].as_str();
        r.push(name);
        proof {
            assert(v@.take(i + 1) =~= v@.take(i as int).push(v@[i as int]));
            assert(r@ =~= prev.push(name));
            assert(strs_view(r@) =~= strs_view(prev).push(name@));
            assert(names_view(v@.take(i + 1)) =~= names_view(v@.take(i as int)).push(v@[i as int]@));
        }
        i = i + 1;
    }
    proof {
        assert(v@.take(v@.len() as int) =~= v@);
        law_listing_names(v@);
        assert forall|i: int| 0 <= i < v@.len() implies (#[trigger] r@[i])@ == v@[i]@ by {
            assert(strs_view(r@)[i] == r@[i]@);
        }
    }
    r
}

impl App {
    /// The browser standing at `start_path` of the bucket that `settings` name, with the given
    /// listings of the current and the parent location; cursors at the top, not exiting.
    pub fn from_listing(
        settings: &S3Config,
        start_path: String,
        current_entries: Vec<String>,
        parent_entries: Vec<String>,
    ) -> (app: App)
        ensures
            app@.bucket == settings.bucket@ + seq!['/'],
            app@.endpoint == settings.endpoint@,
            app@.current_path == start_path@,
            !app@.exit,
            app@.cursor == 0,
            app@.parent_cursor == 0,
            app@.parent_entries == names_view(parent_entries@),
            app@.current_entries == names_view(current_entries@),
            app@.parent_entries.len() == parent_entries@.len(),
            forall|i: int|
                0 <= i < parent_entries@.len() ==> #[trigger] app@.parent_entries[i]
                    == parent_entries@[i]@,
            app@.current_entries.len() == current_entries@.len(),
            forall|i: int|
                0 <= i < current_entries@.len() ==> #[trigger] app@.current_entries[i]
                    == current_entries@[i]@,
    {
        proof {
            law_listing_names(parent_entries@);
            law_listing_names(current_entries@);
        }
        let bucket = settings.bucket.clone().concat("/");
        proof {
            reveal_strlit("/");
        }
        App {
            current_path: start_path,
            exit: false,
            bucket,
            endpoint: settings.endpoint.clone(),
            cursor: 0,
            parent_cursor: 0,
            parent_entries,
            current_entries,
        }
    }

    /// The location shown on the first line: `s3://`, the bucket, then the current path.
    pub fn current_path(&self) -> (r: String)
        ensures
            r@ == location_prefix() + self@.bucket + self@.current_path,
    {
        let mut s = String::from_str("s3://");
        proof {
            reveal_strlit("s3://");
        }
        s.append(self.bucket.as_str());
        s.append(self.current_path.as_str());
        s
    }

    /// The names of the current listing, with the cursor.
    pub fn current_content(&self) -> (r: (Vec<&str>, usize))
        ensures
            strs_view(r.0@) == self@.current_entries,
            r.0@.len() == self@.current_entries.len(),
            forall|i: int|
                0 <= i < r.0@.len() ==> (#[trigger] r.0@[i])@ == self@.current_entries[i],
            r.1 == self@.cursor,
    {
        proof {
            law_listing_names(self.current_entries@);
        }
        (borrow_names(&self.current_entries), self.cursor)
    }

    /// The names of the parent listing, with the parent cursor; the bucket alone where that
    /// listing is empty.
    pub fn parent_content(&self) -> (r: (Vec<&str>, usize))
        ensures
            self@.parent_entries.len() == 0 ==> strs_view(r.0@) == seq![self@.bucket],
            self@.parent_entries.len() != 0 ==> strs_view(r.0@) == self@.parent_entries,
            self@.parent_entries.len() == 0 ==> r.0@.len() == 1 && r.0@[0]@ == self@.bucket,
            self@.parent_entries.len() != 0 ==> r.0@.len() == self@.parent_entries.len(),
            self@.parent_entries.len() != 0 ==> forall|i: int|
                0 <= i < r.0@.len() ==> (#[trigger] r.0@[i])@ == self@.parent_entries[i],
            r.1 == self@.parent_cursor,
    {
        proof {
            law_listing_names(self.parent_entries@);
        }
        let contents = if self.parent_entries.len() == 0 {
            let mut v: Vec<&str> = Vec::new();
            v.push(self.bucket.as_str());
            proof {
                assert(strs_view(v@) =~= seq![self@.bucket]);
            }
            v
        } else {
            borrow_names(&self.parent_entries)
        };
        (contents, self.parent_cursor)
    }
}

/// The lines of a pane: each name, marked where it stands at the cursor.
pub fn pane_lines<'a>(content: &Vec<&'a str>, cursor: usize) -> (r: Vec<(&'a str, bool)>)
    ensures
        r@.len() == content@.len(),
        forall|i: int| 0 <= i < r@.len() ==> (#[trigger] r@[i]).0@ == content@[i]@ && r@[i].1 == (
        i == cursor),
{
    let mut r: Vec<(&'a str, bool)> = Vec::new();
    let mut i: usize = 0;
    while i < content.len()
        invariant
            i <= content@.len(),
            r@.len() == i,
            forall|j: int| 0 <= j < i ==> (#[trigger] r@[j]).0@ == content@[j]@ && r@[j].1 == (
            j == cursor),
        decreases content@.len() - i,
    {
        r.push((content[i], i == cursor));
        i = i + 1;
    }
    r
}

/// What `std::path::Path::parent` gives for a path: the path without its final component, or
/// nothing where the path ends in a root or prefix or is empty.
pub uninterp spec fn std_path_parent(p: Seq<char>) -> Option<Seq<char>>;

/// An optional string as an optional sequence of characters.
pub open spec fn opt_str_view(o: Option<String>) -> Option<Seq<char>> {
    match o {
        Some(s) => Some(s@),
        None => None,
    }
}

/// A character that is neither a separator nor part of a prefix on any platform.
pub open spec fn plain_char(ch: char) -> bool {
    ch != '/' && ch != '\\' && ch != ':'
}

/// A single plain component: non-empty, of plain characters, and not `.`.
pub open spec fn plain_component(c: Seq<char>) -> bool {
    &&& c.len() > 0
    &&& forall|i: int| 0 <= i < c.len() ==> plain_char(#[trigger] c[i])
    &&& c != seq!['.']
}

/// A plain relative path: plain components joined by single `/`, with no `/` at either end
/// and no `.` component.
pub open spec fn plain_relative_path(d: Seq<char>) -> bool {
    &&& d.len() > 0
    &&& d[0] != '/'
    &&& d.last() != '/'
    &&& forall|i: int| 0 <= i < d.len() ==> (#[trigger] d[i] == '/' || plain_char(d[i]))
    &&& forall|i: int| 0 <= i < d.len() - 1 ==> !(#[trigger] d[i] == '/' && d[i + 1] == '/')
    &&& forall|i: int|
        0 <= i < d.len() && #[trigger] d[i] == '.' ==> !((i == 0 || d[i - 1] == '/') && (i + 1
            == d.len() || d[i + 1] == '/'))
}

/// Calls `std::path::Path::parent` on the path `p` and hands back the parent as a string.
/// The contract names the result and states what the documentation states: the parent is the
/// path without its final component, so a path of one component has the empty parent and a
/// plain relative path `d/c` has the parent `d`; the empty path has no parent.
#[verifier::external_body]
fn path_parent(p: &str) -> (r: Option<String>)
    ensures
        opt_str_view(r) == std_path_parent(p@),
        p@.len() == 0 ==> r is None,
        plain_component(p@) ==> opt_str_view(r) == Some(Seq::<char>::empty()),
        forall|d: Seq<char>, c: Seq<char>|
            #![trigger d + seq!['/'] + c]
            plain_relative_path(d) && plain_component(c) && p@ == d + seq!['/'] + c
                ==> opt_str_view(r) == Some(d),
{
    match std::path::Path::new(p).parent() {
        Some(q) => Some(q.to_string_lossy().into_owned()),
        None => None,
    }
}

/// The location to list for a parent path: the parent followed by `/`; nothing where there is
/// no parent.
pub fn listing_of_parent(parent: Option<String>) -> (r: Option<String>)
    ensures
        opt_str_view(r) == match parent {
            Some(p) => Some(p@ + seq!['/']),
            None => None,
        },
{
    match parent {
        Some(p) => {
            proof {
                reveal_strlit("/");
            }
            Some(p.concat("/"))
        },
        None => None,
    }
}

/// The location to list for the parent pane of `start_path`: its parent followed by `/`;
/// nothing where it has no parent (the empty path among them).
pub fn parent_listing_path(start_path: &str) -> (r: Option<String>)
    ensures
        opt_str_view(r) == match std_path_parent(start_path@) {
            Some(p) => Some(p + seq!['/']),
            None => None,
        },
        start_path@.len() == 0 ==> r is None,
        plain_component(start_path@) ==> opt_str_view(r) == Some(seq!['/']),
        forall|d: Seq<char>, c: Seq<char>|
            #![trigger d + seq!['/'] + c]
            plain_relative_path(d) && plain_component(c) && start_path@ == d + seq!['/'] + c
                ==> opt_str_view(r) == Some(d + seq!['/']),
{
    let parent = path_parent(start_path);
    let r = listing_of_parent(parent);
    proof {
        assert(Seq::<char>::empty() + seq!['/'] =~= seq!['/']);
    }
    r
}

/// Whether the browser goes on or stops.
#[derive(Debug, Clone, Copy, PartialEq, Eq, Structural)]
pub enum State {
    Running,
    Exit,
}

/// A key as the browser reads it.
#[derive(Debug, Clone, Copy, PartialEq, Eq, Structural)]
pub enum KeyInput {
    Char(char),
    Other,
}

/// A terminal event as the browser reads it.
#[derive(Debug, Clone, Copy, PartialEq, Eq, Structural)]
pub enum UiEvent {
    FocusGained,
    FocusLost,
    Key(KeyInput),
    Mouse,
    Paste,
    Resize,
}

/// `q` stops the browser; every other key leaves it running.
pub fn handle_key(event: KeyInput) -> (r: State)
    ensures
        r == (if event == KeyInput::Char('q') {
            State::Exit
        } else {
            State::Running
        }),
{
    match event {
        KeyInput::Char(c) => {
            if c == 'q' {
                return State::Exit;
            }
            State::Running
        },
        KeyInput::Other => State::Running,
    }
}

/// The state after one event: a key goes to `handle_key`, and mouse, paste and resize events
/// leave the browser running. Focus events are not handled.
pub fn next_state(event: UiEvent) -> (r: State)
    requires
        event != UiEvent::FocusGained,
        event != UiEvent::FocusLost,
    ensures
        r == match event {
            UiEvent::Key(k) => if k == KeyInput::Char('q') {
                State::Exit
            } else {
                State::Running
            },
            _ => State::Running,
        },
{
    match event {
        UiEvent::Key(k) => handle_key(k),
        _ => State::Running,
    }
}

} // verus!
