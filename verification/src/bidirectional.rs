//! The synchronous request/response front-end: one request FIFO, a
//! token-keyed response table and a monotone token counter, with thin
//! caching requester and responder handles that hide the tokens.

use vstd::prelude::*;

use crate::cursors::assoc_map;
use crate::cursors::find_index;
use crate::cursors::lemma_assoc_entry;
use crate::cursors::lemma_assoc_push_fresh;
use crate::cursors::lemma_assoc_remove_at;
use crate::cursors::lemma_assoc_set_at;
use crate::cursors::lemma_find_index_bounds;
use crate::cursors::unique_keys;

verus! {

/// The tokens `from`, `from + 1`, … paired with the items of `s`.
pub open spec fn numbered<T1>(s: Seq<T1>, from: int) -> Seq<(usize, T1)> {
    Seq::new(s.len(), |i: int| ((from + i) as usize, s[i]))
}

/// The shared state of a bidirectional channel: pending requests in FIFO
/// order, each under the token it was submitted with, and replies keyed by
/// token.
pub struct BDUnbBuffer<T1, T2> {
    next_token: usize,
    req_buf: Vec<(usize, T1)>,
    resp_buf: Vec<(usize, T2)>,
}

/// The requesting side: submits requests and polls for their replies, in
/// submission order, without seeing tokens.
pub struct BDUnbRequester {
    cache_tokens: Vec<usize>,
}

/// The responding side: takes requests in FIFO order and replies to the
/// oldest taken request first.
pub struct BDUnbResponder {
    cache_tokens: Vec<usize>,
}

impl<T1, T2> BDUnbBuffer<T1, T2> {
    /// The token the next request will get; strictly monotone.
    pub closed spec fn next_token(&self) -> usize {
        self.next_token
    }

    /// The pending requests, oldest first, each with its token.
    pub closed spec fn requests(&self) -> Seq<(usize, T1)> {
        self.req_buf@
    }

    /// The replies by token.
    pub closed spec fn responses(&self) -> Map<usize, T2> {
        assoc_map(self.resp_buf@)
    }

    /// Response tokens are pairwise distinct.
    pub closed spec fn wf(&self) -> bool {
        unique_keys(self.resp_buf@)
    }

    /// A fresh bidirectional channel with its two handles.
    pub fn new() -> (r: (BDUnbBuffer<T1, T2>, BDUnbRequester, BDUnbResponder))
        ensures
            r.0.wf(),
            r.0.next_token() == 0,
            r.0.requests() == Seq::<(usize, T1)>::empty(),
            r.0.responses() == Map::<usize, T2>::empty(),
            r.1.tokens() == Seq::<usize>::empty(),
            r.2.tokens() == Seq::<usize>::empty(),
    {
        let buf = BDUnbBuffer { next_token: 0, req_buf: Vec::new(), resp_buf: Vec::new() };
        proof {
            assert(buf.responses() =~= Map::<usize, T2>::empty());
        }
        (
            buf,
            BDUnbRequester { cache_tokens: Vec::new() },
            BDUnbResponder { cache_tokens: Vec::new() },
        )
    }

    /// Enqueue a request under a fresh token and return that token.
    pub fn send_request(&mut self, data: T1) -> (token: usize)
        requires
            old(self).wf(),
            old(self).next_token() < usize::MAX,
        ensures
            final(self).wf(),
            token == old(self).next_token(),
            final(self).next_token() == old(self).next_token() + 1,
            final(self).requests() == old(self).requests().push((token, data)),
            final(self).responses() == old(self).responses(),
    {
        let ret = self.next_token;
        self.req_buf.push((ret, data));
        self.next_token = self.next_token + 1;
        ret
    }

    /// Remove and return the reply stored under `token`, if any.
    pub fn get_response(&mut self, token: usize) -> (r: Option<T2>)
        requires
            old(self).wf(),
        ensures
            final(self).wf(),
            final(self).next_token() == old(self).next_token(),
            final(self).requests() == old(self).requests(),
            old(self).responses().dom().contains(token) ==> r is Some && r == Some(
                old(self).responses()[token],
            ) && final(self).responses() == old(self).responses().remove(token),
            !old(self).responses().dom().contains(token) ==> r is None && final(self).responses()
                == old(self).responses(),
    {
        let n = self.resp_buf.len();
        let mut i: usize = 0;
        while i < n
            invariant
                self.wf(),
                self.resp_buf@ == old(self).resp_buf@,
                self.req_buf@ == old(self).req_buf@,
                self.next_token == old(self).next_token,
                n == self.resp_buf@.len(),
                i <= n,
                forall|j: int| 0 <= j < i ==> (#[trigger] self.resp_buf@[j]).0 != token,
            decreases n - i,
        {
            if self.resp_buf[i].0 == token {
                proof {
                    lemma_assoc_entry(self.resp_buf@, i as int);
                    lemma_assoc_remove_at(self.resp_buf@, i as int);
                }
                let (_, data) = self.resp_buf.remove(i);
                return Some(data);
            }
            i = i + 1;
        }
        proof {
            lemma_find_index_bounds(self.resp_buf@, token);
            if find_index(self.resp_buf@, token) >= 0 {
                assert(self.resp_buf@[find_index(self.resp_buf@, token)].0 == token);
            }
        }
        None
    }

    /// Remove and return the oldest pending request with its token.
    pub fn take_request(&mut self) -> (r: Option<(usize, T1)>)
        requires
            old(self).wf(),
        ensures
            final(self).wf(),
            final(self).next_token() == old(self).next_token(),
            final(self).responses() == old(self).responses(),
            old(self).requests().len() > 0 ==> r == Some(old(self).requests()[0]) && final(self).requests() == old(self).requests().skip(1),
            old(self).requests().len() == 0 ==> r is None && final(self).requests() == old(self).requests(),
    {
        if self.req_buf.len() > 0 {
            let pair = self.req_buf.remove(0);
            proof {
                assert(self.req_buf@ =~= old(self).requests().skip(1));
            }
            Some(pair)
        } else {
            None
        }
    }

    /// Store a reply under `token`, replacing any earlier reply to it.
    pub fn reply_response(&mut self, token: usize, data: T2)
        requires
            old(self).wf(),
        ensures
            final(self).wf(),
            final(self).next_token() == old(self).next_token(),
            final(self).requests() == old(self).requests(),
            final(self).responses() == old(self).responses().insert(token, data),
    {
        let n = self.resp_buf.len();
        let mut i: usize = 0;
        while i < n
            invariant
                self.wf(),
                self.resp_buf@ == old(self).resp_buf@,
                self.req_buf@ == old(self).req_buf@,
                self.next_token == old(self).next_token,
                n == self.resp_buf@.len(),
                i <= n,
                forall|j: int| 0 <= j < i ==> (#[trigger] self.resp_buf@[j]).0 != token,
            decreases n - i,
        {
            if self.resp_buf[i].0 == token {
                proof {
                    lemma_assoc_set_at(self.resp_buf@, i as int, data);
                }
                self.resp_buf.set(i, (token, data));
                return ;
            }
            i = i + 1;
        }
        proof {
            lemma_assoc_push_fresh(self.resp_buf@, token, data);
        }
        self.resp_buf.push((token, data));
    }
}

impl BDUnbRequester {
    /// The tokens of this handle's outstanding requests, oldest first.
    pub closed spec fn tokens(&self) -> Seq<usize> {
        self.cache_tokens@
    }

    /// A further requesting handle over the same shared buffer, starting
    /// with no outstanding requests of its own.
    pub fn new() -> (r: Self)
        ensures
            r.tokens() == Seq::<usize>::empty(),
    {
        BDUnbRequester { cache_tokens: Vec::new() }
    }

    /// Submit a request; its token is remembered so the reply can be
    /// fetched later without naming it.
    pub fn send_request<T1, T2>(&mut self, buf: &mut BDUnbBuffer<T1, T2>, data: T1)
        requires
            old(buf).wf(),
            old(buf).next_token() < usize::MAX,
        ensures
            final(buf).wf(),
            final(buf).next_token() == old(buf).next_token() + 1,
            final(buf).requests() == old(buf).requests().push(
                (old(buf).next_token(), data),
            ),
            final(buf).responses() == old(buf).responses(),
            final(self).tokens() == old(self).tokens().push(old(buf).next_token()),
    {
        let token = buf.send_request(data);
        self.cache_tokens.push(token);
    }

    /// Submit a batch of requests in order.
    pub fn send_requests<T1, T2>(&mut self, buf: &mut BDUnbBuffer<T1, T2>, data: Vec<T1>)
        requires
            old(buf).wf(),
            old(buf).next_token() + data@.len() <= usize::MAX,
        ensures
            final(buf).wf(),
            final(buf).next_token() == old(buf).next_token() + data@.len(),
            final(buf).requests() == old(buf).requests() + numbered(
                data@,
                old(buf).next_token() as int,
            ),
            final(buf).responses() == old(buf).responses(),
            final(self).tokens() == old(self).tokens() + numbered(
                data@,
                old(buf).next_token() as int,
            ).map_values(|p: (usize, T1)| p.0),
    {
        let ghost all = data@;
        let ghost from = buf.next_token() as int;
        let mut data = data;
        let mut done: usize = 0;
        proof {
            assert(buf.requests() + numbered(all, from).take(0) =~= buf.requests());
            assert(self.tokens() + numbered(all, from).take(0).map_values(
                |p: (usize, T1)| p.0,
            ) =~= self.tokens());
        }
        while data.len() > 0
            invariant
                buf.wf(),
                all.len() <= usize::MAX,
                done + data@.len() == all.len(),
                data@ == all.skip(done as int),
                buf.next_token() == from + done,
                from + all.len() <= usize::MAX,
                buf.requests() == old(buf).requests() + numbered(all, from).take(done as int),
                buf.responses() == old(buf).responses(),
                self.tokens() == old(self).tokens() + numbered(all, from).take(
                    done as int,
                ).map_values(|p: (usize, T1)| p.0),
            decreases data@.len(),
        {
            let item = data.remove(0);
            self.send_request(buf, item);
            proof {
                assert(numbered(all, from).take(done + 1) =~= numbered(all, from).take(
                    done as int,
                ).push(((from + done) as usize, all[done as int])));
                assert(buf.requests() =~= old(buf).requests() + numbered(all, from).take(
                    done + 1,
                ));
                assert(numbered(all, from).take(done + 1).map_values(|p: (usize, T1)| p.0)
                    =~= numbered(all, from).take(done as int).map_values(
                    |p: (usize, T1)| p.0,
                ).push(((from + done) as usize)));
                assert(self.tokens() =~= old(self).tokens() + numbered(all, from).take(
                    done + 1,
                ).map_values(|p: (usize, T1)| p.0));
                assert(data@ =~= all.skip(done + 1));
            }
            done = done + 1;
        }
        proof {
            assert(numbered(all, from).take(all.len() as int) =~= numbered(all, from));
        }
    }

    /// Fetch the reply to this handle's oldest outstanding request, if it
    /// has arrived.
    pub fn try_get_response<T1, T2>(&mut self, buf: &mut BDUnbBuffer<T1, T2>) -> (r: Option<T2>)
        requires
            old(buf).wf(),
        ensures
            final(buf).wf(),
            final(buf).next_token() == old(buf).next_token(),
            final(buf).requests() == old(buf).requests(),
            old(self).tokens().len() == 0 ==> r is None && final(self).tokens() == old(self).tokens() && final(buf).responses() == old(buf).responses(),
            old(self).tokens().len() > 0 && old(buf).responses().dom().contains(
                old(self).tokens()[0],
            ) ==> r == Some(old(buf).responses()[old(self).tokens()[0]]) && final(self).tokens() == old(self).tokens().skip(1) && final(buf).responses() == old(buf).responses().remove(old(self).tokens()[0]),
            old(self).tokens().len() > 0 && !old(buf).responses().dom().contains(
                old(self).tokens()[0],
            ) ==> r is None && final(self).tokens() == old(self).tokens() && final(buf).responses() == old(buf).responses(),
    {
        if self.cache_tokens.len() == 0 {
            return None;
        }
        let token = self.cache_tokens[0];
        let got = buf.get_response(token);
        match got {
            Some(data) => {
                self.cache_tokens.remove(0);
                proof {
                    assert(self.cache_tokens@ =~= old(self).tokens().skip(1));
                }
                Some(data)
            },
            None => None,
        }
    }
}

impl BDUnbResponder {
    /// The tokens of the requests this handle has taken and not yet
    /// replied to, oldest first.
    pub closed spec fn tokens(&self) -> Seq<usize> {
        self.cache_tokens@
    }

    /// A further responding handle over the same shared buffer, with no
    /// taken requests of its own.
    pub fn new() -> (r: Self)
        ensures
            r.tokens() == Seq::<usize>::empty(),
    {
        BDUnbResponder { cache_tokens: Vec::new() }
    }

    /// Take the oldest pending request, remembering its token for the
    /// matching reply.
    pub fn try_take_request<T1, T2>(&mut self, buf: &mut BDUnbBuffer<T1, T2>) -> (r: Option<T1>)
        requires
            old(buf).wf(),
        ensures
            final(buf).wf(),
            final(buf).next_token() == old(buf).next_token(),
            final(buf).responses() == old(buf).responses(),
            old(buf).requests().len() > 0 ==> r == Some(old(buf).requests()[0].1) && final(buf).requests() == old(buf).requests().skip(1) && final(self).tokens() == old(self).tokens().push(old(buf).requests()[0].0),
            old(buf).requests().len() == 0 ==> r is None && final(buf).requests() == old(buf).requests() && final(self).tokens() == old(self).tokens(),
    {
        let got = buf.take_request();
        match got {
            Some((token, data)) => {
                self.cache_tokens.push(token);
                Some(data)
            },
            None => None,
        }
    }

    /// Reply to the oldest taken request.
    pub fn reply_response<T1, T2>(&mut self, buf: &mut BDUnbBuffer<T1, T2>, data: T2)
        requires
            old(buf).wf(),
            old(self).tokens().len() > 0,
        ensures
            final(buf).wf(),
            final(buf).next_token() == old(buf).next_token(),
            final(buf).requests() == old(buf).requests(),
            final(buf).responses() == old(buf).responses().insert(old(self).tokens()[0], data),
            final(self).tokens() == old(self).tokens().skip(1),
    {
        let token = self.cache_tokens.remove(0);
        proof {
            assert(self.cache_tokens@ =~= old(self).tokens().skip(1));
        }
        buf.reply_response(token, data);
    }
}

} // verus!
