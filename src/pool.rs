use vstd::prelude::*;

verus! {

/// A named secret handed out by the pool.
#[derive(Debug)]
pub struct Credential {
    pub name: String,
    pub secret: String,
}

/// What a pool holds: for each entry its name, its secret and whether it is
/// still enabled, plus the rotation cursor.
pub struct PoolView {
    pub names: Seq<Seq<char>>,
    pub secrets: Seq<Seq<char>>,
    pub enabled: Seq<bool>,
    pub cursor: nat,
}

impl PoolView {
    /// Names, secrets and flags line up.
    pub open spec fn wf(&self) -> bool {
        self.names.len() == self.secrets.len() && self.enabled.len() == self.secrets.len()
    }

    pub open spec fn len(&self) -> nat {
        self.secrets.len()
    }

    /// The index inspected `k` steps after the cursor, wrapping around.
    pub open spec fn slot(&self, k: int) -> int {
        (self.cursor + k) % (self.len() as int)
    }

    /// The first enabled entry inspected from `k` steps after the cursor on.
    pub open spec fn scan(&self, k: nat) -> Option<int>
        decreases self.len() - k,
    {
        if k >= self.len() {
            None
        } else if self.enabled[self.slot(k as int)] {
            Some(self.slot(k as int))
        } else {
            self.scan(k + 1)
        }
    }

    /// The index that a lookup returns: the first enabled entry at or after
    /// the cursor, wrapping around; none when every entry is disabled.
    pub open spec fn active(&self) -> Option<int> {
        self.scan(0)
    }

    pub proof fn lemma_scan(&self, k: nat)
        requires
            self.wf(),
        ensures
            self.scan(k) matches Some(i) ==> 0 <= i < self.len() && self.enabled[i],
        decreases self.len() - k,
    {
        if k < self.len() {
            self.lemma_scan(k + 1);
        }
    }

    proof fn lemma_scan_none(&self, k: nat)
        requires
            self.wf(),
            forall|i: int| 0 <= i < self.len() ==> !self.enabled[i],
        ensures
            self.scan(k) is None,
        decreases self.len() - k,
    {
        if k < self.len() {
            self.lemma_scan_none(k + 1);
        }
    }

    /// With every entry disabled, a lookup finds none.
    pub proof fn lemma_all_disabled(&self)
        requires
            self.wf(),
            forall|i: int| 0 <= i < self.len() ==> !self.enabled[i],
        ensures
            self.active() is None,
    {
        self.lemma_scan_none(0);
    }

    /// Every entry whose secret is `x` is disabled.
    pub open spec fn secret_disabled(&self, x: Seq<char>) -> bool {
        forall|i: int| 0 <= i < self.len() && self.secrets[i] == x ==> !self.enabled[i]
    }

    /// `later` holds the same entries as `self`, none enabled that was not.
    pub open spec fn only_disables(&self, later: PoolView) -> bool {
        &&& later.names == self.names
        &&& later.secrets == self.secrets
        &&& later.enabled.len() == self.enabled.len()
        &&& forall|i: int| 0 <= i < self.enabled.len() && !self.enabled[i] ==> !later.enabled[i]
    }
}

/// Credentials of one provider, with a flag per entry and a rotation cursor.
///
/// Every operation goes through this handle; holding it exclusively for a
/// change means no lookup can observe a half-made update.
pub struct CredentialPool {
    names: Vec<String>,
    secrets: Vec<String>,
    enabled: Vec<bool>,
    cursor: usize,
}

impl View for CredentialPool {
    type V = PoolView;

    closed spec fn view(&self) -> PoolView {
        PoolView {
            names: self.names@.map_values(|s: String| s@),
            secrets: self.secrets@.map_values(|s: String| s@),
            enabled: self.enabled@,
            cursor: self.cursor as nat,
        }
    }
}

impl CredentialPool {
    /// Entries line up and the cursor points inside the pool (or is 0 when it is empty).
    pub closed spec fn wf(&self) -> bool {
        &&& self.names@.len() == self.secrets@.len()
        &&& self.enabled@.len() == self.secrets@.len()
        &&& (self.secrets@.len() == 0 ==> self.cursor == 0)
        &&& (self.secrets@.len() > 0 ==> self.cursor < self.secrets@.len())
    }

    pub proof fn lemma_wf(&self)
        requires
            self.wf(),
        ensures
            self@.wf(),
            self@.names.len() == self@.len(),
            self@.enabled.len() == self@.len(),
            self@.len() == 0 ==> self@.cursor == 0,
            self@.len() > 0 ==> self@.cursor < self@.len(),
    {
    }

    /// A pool of `(name, secret)` entries, all enabled, cursor at the first.
    pub fn new(keys: Vec<(String, String)>) -> (r: Self)
        ensures
            r.wf(),
            r@.names == keys@.map_values(|k: (String, String)| k.0@),
            r@.secrets == keys@.map_values(|k: (String, String)| k.1@),
            r@.enabled == Seq::new(keys@.len(), |i: int| true),
            r@.cursor == 0,
    {
        let mut names: Vec<String> = Vec::new();
        let mut secrets: Vec<String> = Vec::new();
        let mut enabled: Vec<bool> = Vec::new();
        let mut i: usize = 0;
        while i < keys.len()
            invariant
                i <= keys@.len(),
                names@.len() == i,
                secrets@.len() == i,
                enabled@.len() == i,
                forall|k: int| 0 <= k < i ==> (#[trigger] names@[k])@ == keys@[k].0@,
                forall|k: int| 0 <= k < i ==> (#[trigger] secrets@[k])@ == keys@[k].1@,
                forall|k: int| 0 <= k < i ==> #[trigger] enabled@[k],
            decreases keys@.len() - i,
        {
            names.push(keys[i].0.clone());
            secrets.push(keys[i].1.clone());
            enabled.push(true);
            i = i + 1;
        }
        let r = CredentialPool { names, secrets, enabled, cursor: 0 };
        assert(r@.names =~= keys@.map_values(|k: (String, String)| k.0@));
        assert(r@.secrets =~= keys@.map_values(|k: (String, String)| k.1@));
        assert(r@.enabled =~= Seq::new(keys@.len(), |i: int| true));
        r
    }

    pub fn len(&self) -> (r: usize)
        requires
            self.wf(),
        ensures
            r == self@.len(),
    {
        self.secrets.len()
    }

    pub fn is_enabled(&self, i: usize) -> (r: bool)
        requires
            self.wf(),
            i < self@.len(),
        ensures
            r == self@.enabled[i as int],
    {
        self.enabled[i]
    }

    /// The name and secret of entry `i`.
    pub fn credential(&self, i: usize) -> (r: Credential)
        requires
            self.wf(),
            i < self@.len(),
        ensures
            r.name@ == self@.names[i as int],
            r.secret@ == self@.secrets[i as int],
    {
        Credential { name: self.names[i].clone(), secret: self.secrets[i].clone() }
    }

    /// The index of the first enabled entry at or after the cursor, wrapping
    /// around; `None` once every entry has been inspected and none is enabled.
    pub fn active_index(&self) -> (r: Option<usize>)
        requires
            self.wf(),
        ensures
            r == match self@.active() {
                Some(i) => Some(i as usize),
                None => None::<usize>,
            },
            r matches Some(i) ==> i < self@.len() && self@.enabled[i as int] && self@.active()
                == Some(i as int),
            r is None <==> forall|i: int| 0 <= i < self@.len() ==> !self@.enabled[i],
    {
        let n = self.secrets.len();
        let ghost v = self@;
        let mut k: usize = 0;
        while k < n
            invariant
                v == self@,
                self.wf(),
                n == v.len(),
                k <= n,
                v.active() == v.scan(k as nat),
                forall|j: int| 0 <= j < k ==> !v.enabled[#[trigger] v.slot(j)],
            decreases n - k,
        {
            let idx = if self.cursor >= n - k {
                self.cursor - (n - k)
            } else {
                self.cursor + k
            };
            assert(idx == v.slot(k as int)) by {
                if self.cursor >= n - k {
                    vstd::arithmetic::div_mod::lemma_mod_add_multiples_vanish(idx as int, n as int);
                }
                vstd::arithmetic::div_mod::lemma_small_mod(idx as nat, n as nat);
            }
            if self.enabled[idx] {
                return Some(idx);
            }
            k = k + 1;
        }
        proof {
            assert forall|i: int| 0 <= i < v.len() implies !v.enabled[i] by {
                let j = (i - v.cursor + v.len()) % (v.len() as int);
                assert(v.slot(j) == i) by {
                    vstd::arithmetic::div_mod::lemma_add_mod_noop(v.cursor as int, i - v.cursor + v.len(), v.len() as int);
                    vstd::arithmetic::div_mod::lemma_mod_add_multiples_vanish(i, v.len() as int);
                    vstd::arithmetic::div_mod::lemma_small_mod(i as nat, v.len());
                    vstd::arithmetic::div_mod::lemma_small_mod(v.cursor, v.len());
                }
            }
        }
        None
    }

    /// The credential that a lookup selects, as `active_index` picks it.
    pub fn get_active(&self) -> (r: Option<Credential>)
        requires
            self.wf(),
        ensures
            r is Some <==> self@.active() is Some,
            r is None <==> forall|i: int| 0 <= i < self@.len() ==> !self@.enabled[i],
            r matches Some(c) ==> c.name@ == self@.names[self@.active()->0] && c.secret@
                == self@.secrets[self@.active()->0],
    {
        match self.active_index() {
            Some(i) => Some(self.credential(i)),
            None => None,
        }
    }

    /// Advances the cursor by one place, wrapping around.
    pub fn rotate(&mut self)
        requires
            old(self).wf(),
        ensures
            final(self).wf(),
            final(self)@.names == old(self)@.names,
            final(self)@.secrets == old(self)@.secrets,
            final(self)@.enabled == old(self)@.enabled,
            final(self)@.len() > 0 ==> final(self)@.cursor == (old(self)@.cursor + 1) % old(
                self,
            )@.len(),
            old(self)@.only_disables(final(self)@),
    {
        let n = self.secrets.len();
        if n > 0 {
            self.cursor = if self.cursor + 1 == n {
                0
            } else {
                self.cursor + 1
            };
        }
        proof {
            if n > 0 {
                if old(self).cursor + 1 < n {
                    vstd::arithmetic::div_mod::lemma_small_mod((old(self).cursor + 1) as nat, n as nat);
                } else {
                    vstd::arithmetic::div_mod::lemma_mod_self_0(n as int);
                }
            }
        }
    }

    /// Disables every entry whose secret is `secret`, then rotates.
    pub fn disable(&mut self, secret: &str)
        requires
            old(self).wf(),
        ensures
            final(self).wf(),
            final(self)@.names == old(self)@.names,
            final(self)@.secrets == old(self)@.secrets,
            final(self)@.enabled.len() == old(self)@.enabled.len(),
            forall|i: int|
                0 <= i < old(self)@.len() ==> final(self)@.enabled[i] == (old(self)@.enabled[i]
                    && old(self)@.secrets[i] != secret@),
            final(self)@.len() > 0 ==> final(self)@.cursor == (old(self)@.cursor + 1) % old(
                self,
            )@.len(),
            final(self)@.secret_disabled(secret@),
            old(self)@.only_disables(final(self)@),
    {
        let n = self.secrets.len();
        let mut i: usize = 0;
        while i < n
            invariant
                n == self.secrets@.len(),
                n == old(self).enabled@.len(),
                self.wf(),
                self.names == old(self).names,
                self.secrets == old(self).secrets,
                self.cursor == old(self).cursor,
                i <= n,
                forall|k: int|
                    0 <= k < i ==> self.enabled@[k] == (old(self).enabled@[k]
                        && self.secrets@[k]@ != secret@),
                forall|k: int| i <= k < n ==> self.enabled@[k] == old(self).enabled@[k],
            decreases n - i,
        {
            if crate::text::same_text(self.secrets[i].as_str(), secret) {
                self.enabled.set(i, false);
            }
            i = i + 1;
        }
        self.rotate();
    }
}

/// Once every entry with secret `x` is disabled, no later state of the pool
/// reached by disabling and rotating selects `x`.
pub proof fn lemma_disabled_never_active(before: PoolView, after: PoolView, x: Seq<char>)
    requires
        before.wf(),
        before.secret_disabled(x),
        before.only_disables(after),
    ensures
        after.secret_disabled(x),
        after.active() matches Some(i) ==> after.secrets[i] != x,
{
    after.lemma_scan(0);
}

/// Disabling and rotating, step after step, still only disables.
pub proof fn lemma_only_disables_trans(a: PoolView, b: PoolView, c: PoolView)
    requires
        a.only_disables(b),
        b.only_disables(c),
    ensures
        a.only_disables(c),
{
}

} // verus!
