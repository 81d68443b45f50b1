//! Identifiers: opaque texts made of a type prefix and a 26-character,
//! lexicographically sortable time-stamped token.

use crate::text::{append, append_str, from_chars, to_chars};
use vstd::prelude::*;
use vstd::std_specs::cmp::PartialEqSpecImpl;

verus! {

/// Length of the sortable token that follows an identifier's prefix.
pub const TOKEN_LEN: usize = 26;

/// A character of Crockford's base-32 alphabet: a digit or an upper-case
/// letter other than I, L, O and U.
pub open spec fn is_token_char(c: char) -> bool {
    ('0' <= c <= '9') || ('A' <= c <= 'Z' && c != 'I' && c != 'L' && c != 'O' && c != 'U')
}

/// A sortable token: 26 characters of the base-32 alphabet.
pub open spec fn is_token(t: Seq<char>) -> bool {
    t.len() == TOKEN_LEN && forall|i: int| 0 <= i < t.len() ==> is_token_char(#[trigger] t[i])
}

/// `id` is `prefix` followed by a sortable token.
pub open spec fn is_generated(id: Seq<char>, prefix: Seq<char>) -> bool {
    id.len() == prefix.len() + TOKEN_LEN && id.take(prefix.len() as int) == prefix && is_token(
        id.skip(prefix.len() as int),
    )
}

/// `ulid::Ulid::new` followed by `Ulid::to_string`: a token of 26 characters
/// drawn from the base-32 alphabet. Which token comes out depends on the
/// clock and on a random source, so nothing more is said of it.
#[verifier::external_body]
fn fresh_token() -> (r: String)
    ensures
        is_token(r@),
{
    ulid::Ulid::new().to_string()
}

/// A new token as a character vector.
pub fn new_token() -> (r: Vec<char>)
    ensures
        is_token(r@),
{
    let t = fresh_token();
    to_chars(t.as_str())
}

/// `prefix` followed by `token`.
pub fn prefixed(prefix: &str, token: &Vec<char>) -> (r: String)
    ensures
        r@ == prefix@ + token@,
{
    let mut v: Vec<char> = Vec::new();
    append_str(&mut v, prefix);
    append(&mut v, token);
    assert(v@ =~= prefix@ + token@);
    from_chars(&v)
}

/// Identifier of a conversational turn.
#[derive(Debug, Hash)]
pub struct TurnId(pub String);

impl View for TurnId {
    type V = Seq<char>;

    open spec fn view(&self) -> Seq<char> {
        self.0@
    }
}

impl Clone for TurnId {
    fn clone(&self) -> (r: Self)
        ensures
            r@ == self@,
    {
        TurnId(self.0.clone())
    }
}

impl PartialEq for TurnId {
    fn eq(&self, other: &Self) -> (r: bool) {
        self.0 == other.0
    }
}

impl PartialEqSpecImpl for TurnId {
    open spec fn obeys_eq_spec() -> bool {
        true
    }

    open spec fn eq_spec(&self, other: &Self) -> bool {
        self.0@ == other.0@
    }
}

impl Eq for TurnId {

}

impl TurnId {
    /// The identifier as text.
    pub fn as_string(&self) -> (r: String)
        ensures
            r@ == self@,
    {
        self.0.clone()
    }
}

/// A new identifier of a conversational turn: `turn_` and a fresh token.
pub fn generate_turn_id() -> (r: TurnId)
    ensures
        is_generated(r@, "turn_"@),
{
    let t = new_token();
    let s = prefixed("turn_", &t);
    proof {
        assert(s@.take("turn_"@.len() as int) =~= "turn_"@);
        assert(s@.skip("turn_"@.len() as int) =~= t@);
    }
    TurnId(s)
}

/// Identifier of a conversation thread.
#[derive(Debug, Hash)]
pub struct ThreadId(pub String);

impl View for ThreadId {
    type V = Seq<char>;

    open spec fn view(&self) -> Seq<char> {
        self.0@
    }
}

impl Clone for ThreadId {
    fn clone(&self) -> (r: Self)
        ensures
            r@ == self@,
    {
        ThreadId(self.0.clone())
    }
}

impl PartialEq for ThreadId {
    fn eq(&self, other: &Self) -> (r: bool) {
        self.0 == other.0
    }
}

impl PartialEqSpecImpl for ThreadId {
    open spec fn obeys_eq_spec() -> bool {
        true
    }

    open spec fn eq_spec(&self, other: &Self) -> bool {
        self.0@ == other.0@
    }
}

impl Eq for ThreadId {

}

impl ThreadId {
    /// The identifier as text.
    pub fn as_string(&self) -> (r: String)
        ensures
            r@ == self@,
    {
        self.0.clone()
    }
}

/// A new identifier of a conversation thread: `thr_` and a fresh token.
pub fn generate_thread_id() -> (r: ThreadId)
    ensures
        is_generated(r@, "thr_"@),
{
    let t = new_token();
    let s = prefixed("thr_", &t);
    proof {
        assert(s@.take("thr_"@.len() as int) =~= "thr_"@);
        assert(s@.skip("thr_"@.len() as int) =~= t@);
    }
    ThreadId(s)
}

/// Identifier of a memory.
#[derive(Debug, Hash)]
pub struct MemoryId(pub String);

impl View for MemoryId {
    type V = Seq<char>;

    open spec fn view(&self) -> Seq<char> {
        self.0@
    }
}

impl Clone for MemoryId {
    fn clone(&self) -> (r: Self)
        ensures
            r@ == self@,
    {
        MemoryId(self.0.clone())
    }
}

impl PartialEq for MemoryId {
    fn eq(&self, other: &Self) -> (r: bool) {
        self.0 == other.0
    }
}

impl PartialEqSpecImpl for MemoryId {
    open spec fn obeys_eq_spec() -> bool {
        true
    }

    open spec fn eq_spec(&self, other: &Self) -> bool {
        self.0@ == other.0@
    }
}

impl Eq for MemoryId {

}

impl MemoryId {
    /// The identifier as text.
    pub fn as_string(&self) -> (r: String)
        ensures
            r@ == self@,
    {
        self.0.clone()
    }
}

/// A new identifier of a memory: `mem_` and a fresh token.
pub fn generate_memory_id() -> (r: MemoryId)
    ensures
        is_generated(r@, "mem_"@),
{
    let t = new_token();
    let s = prefixed("mem_", &t);
    proof {
        assert(s@.take("mem_"@.len() as int) =~= "mem_"@);
        assert(s@.skip("mem_"@.len() as int) =~= t@);
    }
    MemoryId(s)
}

/// Identifier of a context capsule.
#[derive(Debug, Hash)]
pub struct CapsuleId(pub String);

impl View for CapsuleId {
    type V = Seq<char>;

    open spec fn view(&self) -> Seq<char> {
        self.0@
    }
}

impl Clone for CapsuleId {
    fn clone(&self) -> (r: Self)
        ensures
            r@ == self@,
    {
        CapsuleId(self.0.clone())
    }
}

impl PartialEq for CapsuleId {
    fn eq(&self, other: &Self) -> (r: bool) {
        self.0 == other.0
    }
}

impl PartialEqSpecImpl for CapsuleId {
    open spec fn obeys_eq_spec() -> bool {
        true
    }

    open spec fn eq_spec(&self, other: &Self) -> bool {
        self.0@ == other.0@
    }
}

impl Eq for CapsuleId {

}

impl CapsuleId {
    /// The identifier as text.
    pub fn as_string(&self) -> (r: String)
        ensures
            r@ == self@,
    {
        self.0.clone()
    }
}

/// A new identifier of a context capsule: `cap_` and a fresh token.
pub fn generate_capsule_id() -> (r: CapsuleId)
    ensures
        is_generated(r@, "cap_"@),
{
    let t = new_token();
    let s = prefixed("cap_", &t);
    proof {
        assert(s@.take("cap_"@.len() as int) =~= "cap_"@);
        assert(s@.skip("cap_"@.len() as int) =~= t@);
    }
    CapsuleId(s)
}

/// Identifier of a workspace.
#[derive(Debug, Hash)]
pub struct WorkspaceId(pub String);

impl View for WorkspaceId {
    type V = Seq<char>;

    open spec fn view(&self) -> Seq<char> {
        self.0@
    }
}

impl Clone for WorkspaceId {
    fn clone(&self) -> (r: Self)
        ensures
            r@ == self@,
    {
        WorkspaceId(self.0.clone())
    }
}

impl PartialEq for WorkspaceId {
    fn eq(&self, other: &Self) -> (r: bool) {
        self.0 == other.0
    }
}

impl PartialEqSpecImpl for WorkspaceId {
    open spec fn obeys_eq_spec() -> bool {
        true
    }

    open spec fn eq_spec(&self, other: &Self) -> bool {
        self.0@ == other.0@
    }
}

impl Eq for WorkspaceId {

}

impl WorkspaceId {
    /// The identifier as text.
    pub fn as_string(&self) -> (r: String)
        ensures
            r@ == self@,
    {
        self.0.clone()
    }
}

/// A new identifier of a workspace: `ws_` and a fresh token.
pub fn generate_workspace_id() -> (r: WorkspaceId)
    ensures
        is_generated(r@, "ws_"@),
{
    let t = new_token();
    let s = prefixed("ws_", &t);
    proof {
        assert(s@.take("ws_"@.len() as int) =~= "ws_"@);
        assert(s@.skip("ws_"@.len() as int) =~= t@);
    }
    WorkspaceId(s)
}

/// Identifier of a project.
#[derive(Debug, Hash)]
pub struct ProjectId(pub String);

impl View for ProjectId {
    type V = Seq<char>;

    open spec fn view(&self) -> Seq<char> {
        self.0@
    }
}

impl Clone for ProjectId {
    fn clone(&self) -> (r: Self)
        ensures
            r@ == self@,
    {
        ProjectId(self.0.clone())
    }
}

impl PartialEq for ProjectId {
    fn eq(&self, other: &Self) -> (r: bool) {
        self.0 == other.0
    }
}

impl PartialEqSpecImpl for ProjectId {
    open spec fn obeys_eq_spec() -> bool {
        true
    }

    open spec fn eq_spec(&self, other: &Self) -> bool {
        self.0@ == other.0@
    }
}

impl Eq for ProjectId {

}

impl ProjectId {
    /// The identifier as text.
    pub fn as_string(&self) -> (r: String)
        ensures
            r@ == self@,
    {
        self.0.clone()
    }
}

/// A new identifier of a project: `proj_` and a fresh token.
pub fn generate_project_id() -> (r: ProjectId)
    ensures
        is_generated(r@, "proj_"@),
{
    let t = new_token();
    let s = prefixed("proj_", &t);
    proof {
        assert(s@.take("proj_"@.len() as int) =~= "proj_"@);
        assert(s@.skip("proj_"@.len() as int) =~= t@);
    }
    ProjectId(s)
}

/// Identifier of an area.
#[derive(Debug, Hash)]
pub struct AreaId(pub String);

impl View for AreaId {
    type V = Seq<char>;

    open spec fn view(&self) -> Seq<char> {
        self.0@
    }
}

impl Clone for AreaId {
    fn clone(&self) -> (r: Self)
        ensures
            r@ == self@,
    {
        AreaId(self.0.clone())
    }
}

impl PartialEq for AreaId {
    fn eq(&self, other: &Self) -> (r: bool) {
        self.0 == other.0
    }
}

impl PartialEqSpecImpl for AreaId {
    open spec fn obeys_eq_spec() -> bool {
        true
    }

    open spec fn eq_spec(&self, other: &Self) -> bool {
        self.0@ == other.0@
    }
}

impl Eq for AreaId {

}

impl AreaId {
    /// The identifier as text.
    pub fn as_string(&self) -> (r: String)
        ensures
            r@ == self@,
    {
        self.0.clone()
    }
}

/// A new identifier of an area: `area_` and a fresh token.
pub fn generate_area_id() -> (r: AreaId)
    ensures
        is_generated(r@, "area_"@),
{
    let t = new_token();
    let s = prefixed("area_", &t);
    proof {
        assert(s@.take("area_"@.len() as int) =~= "area_"@);
        assert(s@.skip("area_"@.len() as int) =~= t@);
    }
    AreaId(s)
}

/// Identifier of a topic.
#[derive(Debug, Hash)]
pub struct TopicId(pub String);

impl View for TopicId {
    type V = Seq<char>;

    open spec fn view(&self) -> Seq<char> {
        self.0@
    }
}

impl Clone for TopicId {
    fn clone(&self) -> (r: Self)
        ensures
            r@ == self@,
    {
        TopicId(self.0.clone())
    }
}

impl PartialEq for TopicId {
    fn eq(&self, other: &Self) -> (r: bool) {
        self.0 == other.0
    }
}

impl PartialEqSpecImpl for TopicId {
    open spec fn obeys_eq_spec() -> bool {
        true
    }

    open spec fn eq_spec(&self, other: &Self) -> bool {
        self.0@ == other.0@
    }
}

impl Eq for TopicId {

}

impl TopicId {
    /// The identifier as text.
    pub fn as_string(&self) -> (r: String)
        ensures
            r@ == self@,
    {
        self.0.clone()
    }
}

/// A new identifier of a topic: `topic_` and a fresh token.
pub fn generate_topic_id() -> (r: TopicId)
    ensures
        is_generated(r@, "topic_"@),
{
    let t = new_token();
    let s = prefixed("topic_", &t);
    proof {
        assert(s@.take("topic_"@.len() as int) =~= "topic_"@);
        assert(s@.skip("topic_"@.len() as int) =~= t@);
    }
    TopicId(s)
}

/// Identifier of a relation between memories.
#[derive(Debug, Hash)]
pub struct RelationId(pub String);

impl View for RelationId {
    type V = Seq<char>;

    open spec fn view(&self) -> Seq<char> {
        self.0@
    }
}

impl Clone for RelationId {
    fn clone(&self) -> (r: Self)
        ensures
            r@ == self@,
    {
        RelationId(self.0.clone())
    }
}

impl PartialEq for RelationId {
    fn eq(&self, other: &Self) -> (r: bool) {
        self.0 == other.0
    }
}

impl PartialEqSpecImpl for RelationId {
    open spec fn obeys_eq_spec() -> bool {
        true
    }

    open spec fn eq_spec(&self, other: &Self) -> bool {
        self.0@ == other.0@
    }
}

impl Eq for RelationId {

}

impl RelationId {
    /// The identifier as text.
    pub fn as_string(&self) -> (r: String)
        ensures
            r@ == self@,
    {
        self.0.clone()
    }
}

/// A new identifier of a relation between memories: `rel_` and a fresh token.
pub fn generate_relation_id() -> (r: RelationId)
    ensures
        is_generated(r@, "rel_"@),
{
    let t = new_token();
    let s = prefixed("rel_", &t);
    proof {
        assert(s@.take("rel_"@.len() as int) =~= "rel_"@);
        assert(s@.skip("rel_"@.len() as int) =~= t@);
    }
    RelationId(s)
}

/// Identifier of a stored version of a memory.
#[derive(Debug, Hash)]
pub struct VersionId(pub String);

impl View for VersionId {
    type V = Seq<char>;

    open spec fn view(&self) -> Seq<char> {
        self.0@
    }
}

impl Clone for VersionId {
    fn clone(&self) -> (r: Self)
        ensures
            r@ == self@,
    {
        VersionId(self.0.clone())
    }
}

impl PartialEq for VersionId {
    fn eq(&self, other: &Self) -> (r: bool) {
        self.0 == other.0
    }
}

impl PartialEqSpecImpl for VersionId {
    open spec fn obeys_eq_spec() -> bool {
        true
    }

    open spec fn eq_spec(&self, other: &Self) -> bool {
        self.0@ == other.0@
    }
}

impl Eq for VersionId {

}

impl VersionId {
    /// The identifier as text.
    pub fn as_string(&self) -> (r: String)
        ensures
            r@ == self@,
    {
        self.0.clone()
    }
}

/// A new identifier of a stored version of a memory: `ver_` and a fresh token.
pub fn generate_version_id() -> (r: VersionId)
    ensures
        is_generated(r@, "ver_"@),
{
    let t = new_token();
    let s = prefixed("ver_", &t);
    proof {
        assert(s@.take("ver_"@.len() as int) =~= "ver_"@);
        assert(s@.skip("ver_"@.len() as int) =~= t@);
    }
    VersionId(s)
}

} // verus!
