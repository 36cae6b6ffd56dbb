use vstd::prelude::*;

verus! {

/// Why a piece of a GitHub answer could not be turned into a fork, a branch
/// or a pull request, or why an answer of the GitHub API was refused.
#[derive(Debug)]
pub enum GcError {
    /// The repository has no refs.
    NoRepositoryRefs,
    /// The refs of the repository have no nodes.
    NoRepositoryRefNodes,
    /// A node of the repository's refs is empty.
    BranchIsNone,
    /// A branch points to no commit.
    BranchTargetIsNone,
    /// The pull request has no head ref.
    NoHeadRef,
    /// The head repository of the pull request is not a fork.
    NotAFork,
    /// The head ref of the pull request points to no commit.
    NoCommit,
    /// The pull request is in a state other than open, closed or merged;
    /// the state's name is kept.
    UnknownPrState(String),
    /// The server answered with errors; the text lists their messages.
    ServerErrors(String),
    /// The answer carries no data; the action that was attempted is kept.
    MissingResponseData(String),
}

/// Where a page of a paginated GitHub query stands.
pub struct PageInfo {
    pub has_next_page: bool,
    pub end_cursor: Option<String>,
}

/// The lines of the server's error messages, each followed by a line break.
pub open spec fn server_error_lines(messages: Seq<String>) -> Seq<char>
    decreases messages.len(),
{
    if messages.len() == 0 {
        Seq::empty()
    } else {
        server_error_lines(messages.drop_last()) + messages.last()@ + "\n"@
    }
}

/// The text of the error made of the server's error messages.
pub open spec fn server_error_message(messages: Seq<String>) -> Seq<char> {
    "Errors from server:\n"@ + server_error_lines(messages)
}

/// The error text starts with its header, and each message adds its own line
/// after those of the messages before it.
pub proof fn lemma_server_error_message(messages: Seq<String>, m: String)
    ensures
        server_error_message(Seq::empty()) == "Errors from server:\n"@,
        server_error_message(messages.push(m)) == server_error_message(messages) + m@ + "\n"@,
{
    assert(messages.push(m).drop_last() == messages);
    assert(server_error_lines(Seq::<String>::empty()) == Seq::<char>::empty());
    assert("Errors from server:\n"@ + Seq::<char>::empty() =~= "Errors from server:\n"@);
    let h = "Errors from server:\n"@;
    let l = server_error_lines(messages);
    assert(h + (l + m@ + "\n"@) =~= h + l + m@ + "\n"@);
}

/// Decides what an answer of the GitHub API gives: an answer with errors is an
/// error that lists their messages, even where data came with it; an answer
/// without errors gives its data, or, where it has none, an error that names the
/// action.
pub fn interpret_response<T>(data: Option<T>, errors: Option<Vec<String>>, action: &String) -> (r:
    Result<T, GcError>)
    ensures
        match errors {
            Some(messages) => r matches Err(GcError::ServerErrors(m)) && m@ == server_error_message(
                messages@,
            ),
            None => match data {
                Some(d) => r == Ok::<T, GcError>(d),
                None => r matches Err(GcError::MissingResponseData(a)) && a@ == action@,
            },
        },
{
    match errors {
        Some(messages) => {
            let mut text = "Errors from server:\n".to_owned();
            let mut i: usize = 0;
            while i < messages.len()
                invariant
                    i <= messages.len(),
                    text@ == server_error_message(messages@.take(i as int)),
                decreases messages.len() - i,
            {
                text.append(messages[i].as_str());
                text.append("\n");
                proof {
                    assert(messages@.take(i + 1).drop_last() == messages@.take(i as int));
                }
                i = i + 1;
            }
            proof {
                assert(messages@.take(messages.len() as int) == messages@);
            }
            Err(GcError::ServerErrors(text))
        },
        None => match data {
            Some(d) => Ok(d),
            None => Err(GcError::MissingResponseData(action.clone())),
        },
    }
}

/// The state of a paginated query: the items gathered so far, whether another
/// page is to be fetched, and the cursor after which it starts.
pub struct Pagination<R> {
    pub items: Vec<R>,
    pub has_next_page: bool,
    pub after: Option<String>,
}

impl<R> Pagination<R> {
    /// A query that has fetched nothing: the first page is to be fetched, from the start.
    pub fn new() -> (p: Self)
        ensures
            p.items@ == Seq::<R>::empty(),
            p.has_next_page,
            p.after is None,
    {
        Pagination { items: Vec::new(), has_next_page: true, after: None }
    }

    /// The cursor of the page to fetch next, or `None` where the query is done.
    pub fn next_page(&self) -> (r: Option<Option<String>>)
        ensures
            self.has_next_page ==> r == Some(self.after),
            !self.has_next_page ==> r is None,
    {
        if self.has_next_page {
            match &self.after {
                Some(cursor) => Some(Some(cursor.clone())),
                None => Some(None),
            }
        } else {
            None
        }
    }

    /// Adds the items of a fetched page after those gathered so far, and takes
    /// the page's word on whether another page follows and where it starts.
    pub fn record_page(&mut self, data: Vec<R>, has_next_page: bool, after: Option<String>)
        ensures
            final(self).items@ == old(self).items@ + data@,
            final(self).has_next_page == has_next_page,
            final(self).after == after,
    {
        let mut data = data;
        self.items.append(&mut data);
        self.has_next_page = has_next_page;
        self.after = after;
    }
}

} // verus!
