//! The multicall builder: accumulates columns over one view of downloads,
//! issues a single batched request, and decodes its rows.
use vstd::prelude::*;
use crate::column::ColumnDescriptor;
use crate::decode::{DecodeError, decode_response, decode_rows, rows_view};
use crate::wire::{Value, WireValue};

verus! {

/// The remote endpoint that requests are sent to.
#[derive(Clone, Debug, PartialEq)]
pub struct Server {
    pub endpoint: String,
}

impl Server {
    pub fn new(endpoint: &str) -> (r: Server)
        ensures
            r.endpoint@ == endpoint@,
    {
        Server { endpoint: String::from_str(endpoint) }
    }
}

/// Why the transport could not complete the batched call.
#[derive(Clone, Debug, PartialEq)]
pub struct TransportError {
    pub message: String,
}

/// Why an invocation failed.
#[derive(Clone, Debug, PartialEq)]
pub enum InvokeError {
    /// The batched call itself failed; passed on as the transport reported it.
    Transport(TransportError),
    /// The response did not decode into the requested columns.
    Decode(DecodeError),
    /// No column was added before invoking.
    NoColumns,
}

/// The one batched request of a multicall: the remote method, its target and
/// view, and the operation of each column, in column order.
#[derive(Clone, Debug, PartialEq)]
pub struct Request {
    pub endpoint: String,
    pub method: String,
    pub target: String,
    pub view: String,
    pub operations: Vec<String>,
}

/// Builds a query of one or more columns across all downloads of a view, to
/// be sent as a single call.
#[derive(Clone, Debug, PartialEq)]
pub struct MultiBuilder {
    pub server: Server,
    pub method: String,
    pub target: String,
    pub view: String,
    pub columns: Vec<ColumnDescriptor>,
}

/// `q` is the request that builder `b` sends: every column's operation, in order.
pub open spec fn request_for(b: MultiBuilder, q: Request) -> bool {
    &&& q.endpoint == b.server.endpoint
    &&& q.method == b.method
    &&& q.target == b.target
    &&& q.view == b.view
    &&& q.operations@.len() == b.columns@.len()
    &&& forall|i: int| 0 <= i < q.operations@.len() ==> q.operations@[i] == b.columns@[i].name
}

/// `r` is what an invocation over `cols` returns when the transport answered `resp`.
pub open spec fn invoke_outcome(
    cols: Seq<ColumnDescriptor>,
    resp: Result<Vec<Vec<WireValue>>, TransportError>,
    r: Result<Vec<Vec<Value>>, InvokeError>,
) -> bool {
    match resp {
        Err(t) => r == Err::<Vec<Vec<Value>>, InvokeError>(InvokeError::Transport(t)),
        Ok(rows) => match decode_response(cols, rows_view(rows@)) {
            Ok(v) => r is Ok && rows_view(r->Ok_0@) == v,
            Err(e) => r == Err::<Vec<Vec<Value>>, InvokeError>(InvokeError::Decode(e)),
        },
    }
}

impl MultiBuilder {
    /// Starts a multicall over the downloads in `view` on `server`.
    pub fn new(server: &Server, view: &str) -> (r: MultiBuilder)
        ensures
            r.server == *server,
            r.method@ == "d.multicall2"@,
            r.target@ == Seq::<char>::empty(),
            r.view@ == view@,
            r.columns@.len() == 0,
    {
        MultiBuilder {
            server: Server { endpoint: server.endpoint.clone() },
            method: String::from_str("d.multicall2"),
            target: String::new(),
            view: String::from_str(view),
            columns: Vec::new(),
        }
    }

    /// Adds one column after those already added.
    pub fn call(self, column: ColumnDescriptor) -> (r: MultiBuilder)
        ensures
            r.columns@ == self.columns@.push(column),
            r.server == self.server,
            r.method == self.method,
            r.target == self.target,
            r.view == self.view,
    {
        let mut b = self;
        b.columns.push(column);
        b
    }

    /// The single request that carries every column's operation.
    pub fn request(&self) -> (q: Request)
        ensures
            request_for(*self, q),
    {
        let mut ops: Vec<String> = Vec::new();
        let mut i: usize = 0;
        while i < self.columns.len()
            invariant
                i <= self.columns@.len(),
                ops@.len() == i,
                forall|j: int| 0 <= j < i ==> ops@[j] == self.columns@[j].name,
            decreases self.columns@.len() - i,
        {
            ops.push(self.columns[i].name.clone());
            i = i + 1;
        }
        Request {
            endpoint: self.server.endpoint.clone(),
            method: self.method.clone(),
            target: self.target.clone(),
            view: self.view.clone(),
            operations: ops,
        }
    }

    /// Sends the request through `execute`, called at most once, and decodes
    /// the rows it returns. The builder is consumed.
    pub fn invoke<F>(self, execute: F) -> (r: Result<Vec<Vec<Value>>, InvokeError>)
        where
            F: FnOnce(Request) -> Result<Vec<Vec<WireValue>>, TransportError>,
        requires
            forall|q: Request| request_for(self, q) ==> call_requires(execute, (q,)),
        ensures
            self.columns@.len() == 0 <==> r == Err::<Vec<Vec<Value>>, InvokeError>(InvokeError::NoColumns),
            self.columns@.len() > 0 ==> exists|q: Request, resp: Result<Vec<Vec<WireValue>>, TransportError>|
                request_for(self, q) && call_ensures(execute, (q,), resp) && invoke_outcome(self.columns@, resp, r),
    {
        if self.columns.len() == 0 {
            return Err(InvokeError::NoColumns);
        }
        let q = self.request();
        let resp = execute(q);
        let ghost answered = resp;
        let r = match resp {
            Err(t) => Err(InvokeError::Transport(t)),
            Ok(rows) => match decode_rows(&self.columns, &rows) {
                Ok(v) => Ok(v),
                Err(e) => Err(InvokeError::Decode(e)),
            },
        };
        assert(invoke_outcome(self.columns@, answered, r));
        r
    }
}

} // verus!
