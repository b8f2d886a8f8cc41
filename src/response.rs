use vstd::prelude::*;

verus! {

/// Outcome of a command, handed back to the chat layer.
#[derive(Clone, Debug)]
pub struct ApiResponse<T> {
    pub success: bool,
    /// The data of a successful operation; may be a response message.
    pub data: Option<T>,
    /// An error message when the operation failed.
    pub message: Option<String>,
}

impl<T> ApiResponse<T> {
    pub fn ok(data: T) -> (r: Self)
        ensures
            r.success,
            r.data == Some(data),
            r.message is None,
    {
        ApiResponse { success: true, data: Some(data), message: None }
    }

    pub fn error(msg: String) -> (r: Self)
        ensures
            !r.success,
            r.data is None,
            r.message == Some(msg),
    {
        ApiResponse { success: false, data: None, message: Some(msg) }
    }

    pub fn new(success: bool, data: T, message: String) -> (r: Self)
        ensures
            r.success == success,
            r.data == Some(data),
            r.message == Some(message),
    {
        ApiResponse { success, data: Some(data), message: Some(message) }
    }

    pub fn empty() -> (r: Self)
        ensures
            !r.success,
            r.data is None,
            r.message is None,
    {
        ApiResponse { success: false, data: None, message: None }
    }
}

} // verus!
