//! The sweep over workload sizes.
//!
//! Starting at `min_bytes`, each step moves to
//! `floor((size + step_bytes) * factor_num / factor_den)`. The sweep stops the
//! first time that value leaves `[min_bytes, max_bytes]`, or fails to exceed
//! the current size, so the sizes visited are strictly increasing and every
//! sweep ends.
use vstd::prelude::*;

verus! {

/// Bounds and step of a sweep. The multiplicative factor is the fraction
/// `factor_num / factor_den`.
#[derive(Clone, Copy, Debug, PartialEq, Eq)]
pub struct SweepConfig {
    pub min_bytes: u64,
    pub max_bytes: u64,
    pub step_bytes: u64,
    pub factor_num: u32,
    pub factor_den: u32,
}

/// A sweep configuration that cannot make progress.
#[derive(Clone, Copy, Debug, PartialEq, Eq)]
pub enum ConfigError {
    /// The factor's denominator is zero.
    ZeroDenominator,
    /// Neither the additive step nor the factor increases the size.
    NoProgress,
}

impl SweepConfig {
    /// The configuration is accepted: the factor is a fraction and a step
    /// adds bytes or multiplies by more than one.
    pub open spec fn is_valid(self) -> bool {
        &&& self.factor_den > 0
        &&& (self.step_bytes > 0 || self.factor_num > self.factor_den)
    }

    pub open spec fn in_range(self, size: int) -> bool {
        self.min_bytes <= size <= self.max_bytes
    }

    /// The size that follows `size`.
    pub open spec fn next_of(self, size: int) -> int {
        ((size + self.step_bytes) * self.factor_num) / (self.factor_den as int)
    }

    /// The sizes visited from `size` on, `size` included.
    pub open spec fn sizes_from(self, size: u64) -> Seq<u64>
        decreases self.max_bytes - size,
    {
        let next = self.next_of(size as int);
        if self.in_range(next) && next > size && size <= self.max_bytes {
            seq![size] + self.sizes_from(next as u64)
        } else {
            seq![size]
        }
    }

    /// Every size the sweep visits, in order.
    pub open spec fn planned_sizes(self) -> Seq<u64> {
        if self.min_bytes <= self.max_bytes {
            self.sizes_from(self.min_bytes)
        } else {
            Seq::empty()
        }
    }

    /// Checks that the sweep makes progress.
    pub fn validate(&self) -> (r: Result<(), ConfigError>)
        ensures
            r is Ok <==> self.is_valid(),
            r == Err::<(), ConfigError>(ConfigError::ZeroDenominator) <==> self.factor_den == 0,
    {
        if self.factor_den == 0 {
            Err(ConfigError::ZeroDenominator)
        } else if self.step_bytes == 0 && self.factor_num <= self.factor_den {
            Err(ConfigError::NoProgress)
        } else {
            Ok(())
        }
    }

    /// The size that follows `size`, when it is still part of the sweep.
    pub fn next_size(&self, size: u64) -> (r: Option<u64>)
        requires
            self.factor_den > 0,
        ensures
            r is Some <==> (self.in_range(self.next_of(size as int)) && self.next_of(size as int) > size),
            r matches Some(n) ==> n == self.next_of(size as int),
    {
        let base: u128 = size as u128 + self.step_bytes as u128;
        let num: u128 = self.factor_num as u128;
        assert(base * num <= u128::MAX) by (nonlinear_arith)
            requires base <= 0x2_0000_0000_0000_0000u128, num <= 0xffff_ffffu128;
        let grown: u128 = base * num;
        let next: u128 = grown / self.factor_den as u128;
        if next >= self.min_bytes as u128 && next <= self.max_bytes as u128 && next > size as u128 {
            Some(next as u64)
        } else {
            None
        }
    }

    /// The sizes of the sweep in the order they are visited, or the reason
    /// the configuration is refused. Nothing runs before this check.
    pub fn plan(&self) -> (r: Result<Vec<u64>, ConfigError>)
        ensures
            r is Ok <==> self.is_valid(),
            r matches Ok(v) ==> v@ == self.planned_sizes(),
            r == Err::<Vec<u64>, ConfigError>(ConfigError::ZeroDenominator) <==> self.factor_den == 0,
    {
        match self.validate() {
            Err(e) => {
                return Err(e);
            },
            Ok(()) => {},
        }
        let mut sizes: Vec<u64> = Vec::new();
        if self.min_bytes > self.max_bytes {
            return Ok(sizes);
        }
        let mut size: u64 = self.min_bytes;
        loop
            invariant
                self.is_valid(),
                self.in_range(size as int),
                sizes@ + self.sizes_from(size) == self.planned_sizes(),
            decreases self.max_bytes - size,
        {
            let ghost before = sizes@;
            sizes.push(size);
            match self.next_size(size) {
                None => {
                    assert(sizes@ =~= before + self.sizes_from(size));
                    return Ok(sizes);
                },
                Some(n) => {
                    assert(self.sizes_from(size) == seq![size] + self.sizes_from(n));
                    assert(sizes@ + self.sizes_from(n) =~= before + self.sizes_from(size));
                    size = n;
                },
            }
        }
    }
}

/// Every planned size lies within the bounds, and the sizes strictly increase.
pub proof fn lemma_sizes_increasing(cfg: SweepConfig, size: u64)
    requires
        cfg.factor_den > 0,
        cfg.in_range(size as int),
    ensures
        forall|i: int| 0 <= i < cfg.sizes_from(size).len() ==> cfg.in_range(#[trigger] cfg.sizes_from(size)[i] as int),
        forall|i: int, j: int| 0 <= i < j < cfg.sizes_from(size).len() ==> cfg.sizes_from(size)[i] < cfg.sizes_from(size)[j],
        cfg.sizes_from(size)[0] == size,
    decreases cfg.max_bytes - size,
{
    let next = cfg.next_of(size as int);
    if cfg.in_range(next) && next > size {
        lemma_sizes_increasing(cfg, next as u64);
        let rest = cfg.sizes_from(next as u64);
        let all = cfg.sizes_from(size);
        assert(all == seq![size] + rest);
        assert forall|i: int| 0 <= i < all.len() implies cfg.in_range(#[trigger] all[i] as int) by {
            if i > 0 {
                assert(all[i] == rest[i - 1]);
            }
        }
        assert forall|i: int, j: int| 0 <= i < j < all.len() implies all[i] < all[j] by {
            assert(all[j] == rest[j - 1]);
            if i > 0 {
                assert(all[i] == rest[i - 1]);
            } else {
                if j - 1 > 0 {
                    assert(rest[0] < rest[j - 1]);
                }
            }
        }
    }
}

/// The planned sweep lies within `[min_bytes, max_bytes]` and its sizes
/// strictly increase.
pub proof fn lemma_plan_increasing(cfg: SweepConfig)
    requires
        cfg.is_valid(),
    ensures
        forall|i: int| 0 <= i < cfg.planned_sizes().len() ==> cfg.in_range(#[trigger] cfg.planned_sizes()[i] as int),
        forall|i: int, j: int| 0 <= i < j < cfg.planned_sizes().len() ==> cfg.planned_sizes()[i] < cfg.planned_sizes()[j],
{
    if cfg.min_bytes <= cfg.max_bytes {
        lemma_sizes_increasing(cfg, cfg.min_bytes);
    }
}

} // verus!
