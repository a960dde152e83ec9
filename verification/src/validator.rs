//! Active validators and the validators they have reported.
use std::sync::Arc;
use vstd::prelude::*;

use crate::address::{widened, SuiAddress};
use crate::type_tag::{StructTag, StructTree, TypeTag, TypeTree};

verus! {

/// What is known of one active validator.
#[derive(Debug)]
pub struct ValidatorContents {
    /// The number of epochs for which the validator has been below the low stake threshold.
    pub at_risk: u64,
    /// The on-chain value, serialized.
    pub bytes: Vec<u8>,
    /// Where the validators that it has reported stand among the active validators.
    pub reports: Vec<usize>,
}

/// The validators of one epoch, in the scope in which they were looked up.
#[derive(Debug)]
pub struct ValidatorSetContents<S> {
    pub scope: Arc<S>,
    pub active_validators: Vec<ValidatorContents>,
}

/// One validator of a validator set, by its position.
#[derive(Debug)]
pub struct Validator<S> {
    pub contents: Arc<ValidatorSetContents<S>>,
    pub idx: usize,
}

/// A serialized Move value, with its type and the scope in which the type is looked at.
#[derive(Debug, PartialEq, Eq)]
pub struct MoveValue<S> {
    pub type_: TypeTag,
    pub scope: Arc<S>,
    pub native: Vec<u8>,
}

/// The type `0x3::validator::Validator`.
pub open spec fn validator_type() -> TypeTree {
    TypeTree::Struct(
        StructTree {
            address: widened(seq![3u8]),
            module: "validator"@,
            name: "Validator"@,
            type_params: Seq::empty(),
        },
    )
}

impl ValidatorContents {
    /// The type of the on-chain value of a validator.
    pub fn tag() -> (tag: StructTag)
        ensures
            TypeTree::Struct(tag@) == validator_type(),
    {
        let address: Vec<u8> = vec![3u8];
        assert(address@ =~= seq![3u8]);
        let tag: StructTag = StructTag {
            address: SuiAddress::widen(&address),
            module: "validator".to_owned(),
            name: "Validator".to_owned(),
            type_params: Vec::new(),
        };
        assert(tag@.type_params =~= Seq::empty());
        tag
    }
}

impl<S> Clone for Validator<S> {
    fn clone(&self) -> (copy: Validator<S>)
        ensures
            copy == *self,
    {
        Validator { contents: self.contents.clone(), idx: self.idx }
    }
}

impl<S> Validator<S> {
    /// The validator's data, if it is an active validator.
    pub open spec fn active(&self) -> Option<ValidatorContents> {
        let validators = self.contents.active_validators@;
        if self.idx < validators.len() {
            Some(validators[self.idx as int])
        } else {
            None
        }
    }

    /// The `i`-th validator that an active validator has reported.
    pub open spec fn reported(&self, i: int) -> Validator<S> {
        Validator { contents: self.contents, idx: self.active()->0.reports@[i] }
    }

    /// The validator's data, if it is an active validator.
    pub fn validator(&self) -> (validator: Option<&ValidatorContents>)
        ensures
            match validator {
                Some(v) => self.active() == Some(*v),
                None => self.active() is None,
            },
    {
        if self.idx < self.contents.active_validators.len() {
            Some(&self.contents.active_validators[self.idx])
        } else {
            None
        }
    }

    /// The number of epochs for which this validator has been below the low stake threshold.
    pub fn at_risk(&self) -> (epochs: Option<u64>)
        ensures
            epochs == match self.active() {
                Some(v) => Some(v.at_risk),
                None => None,
            },
    {
        match self.validator() {
            Some(validator) => Some(validator.at_risk),
            None => None,
        }
    }

    /// The on-chain representation of the underlying `0x3::validator::Validator` value, in the scope
    /// of the validator set.
    pub fn contents(&self) -> (value: Option<MoveValue<S>>)
        ensures
            match (value, self.active()) {
                (Some(value), Some(v)) => {
                    &&& value.type_@ == validator_type()
                    &&& value.scope == self.contents.scope
                    &&& value.native@ == v.bytes@
                },
                (None, None) => true,
                _ => false,
            },
    {
        match self.validator() {
            Some(validator) => {
                let native: Vec<u8> = vstd::slice::slice_to_vec(validator.bytes.as_slice());
                Some(
                    MoveValue {
                        type_: TypeTag::Struct(Box::new(ValidatorContents::tag())),
                        scope: self.contents.scope.clone(),
                        native,
                    },
                )
            },
            None => None,
        }
    }

    /// The other validators that this validator has reported, at the positions of a page among
    /// its reports.
    pub fn report_records(&self, page: &Vec<usize>) -> (validators: Option<Vec<Validator<S>>>)
        requires
            self.active() matches Some(v) ==> forall|i: int|
                0 <= i < page@.len() ==> #[trigger] page@[i] < v.reports@.len(),
        ensures
            match (validators, self.active()) {
                (Some(list), Some(v)) => {
                    &&& list@.len() == page@.len()
                    &&& forall|i: int|
                        0 <= i < page@.len() ==> #[trigger] list@[i] == self.reported(
                            page@[i] as int,
                        )
                },
                (None, None) => true,
                _ => false,
            },
    {
        let validator: &ValidatorContents = match self.validator() {
            Some(validator) => validator,
            None => {
                return None;
            },
        };
        let mut list: Vec<Validator<S>> = Vec::new();
        let mut i: usize = 0;
        while i < page.len()
            invariant
                self.active() == Some(*validator),
                forall|j: int|
                    0 <= j < page@.len() ==> #[trigger] page@[j] < validator.reports@.len(),
                i <= page@.len(),
                list@.len() == i,
                forall|j: int|
                    0 <= j < i ==> #[trigger] list@[j] == self.reported(page@[j] as int),
            decreases page@.len() - i,
        {
            let idx: usize = validator.reports[page[i]];
            list.push(Validator { contents: self.contents.clone(), idx });
            i = i + 1;
        }
        Some(list)
    }
}

/// A validator is active exactly where its position lies within the active validators, and is then
/// the one at that position.
pub proof fn law_active_by_position<S>(validator: Validator<S>)
    ensures
        validator.active() is Some <==> validator.idx < validator.contents.active_validators@.len(),
        validator.active() matches Some(contents) ==> contents
            == validator.contents.active_validators@[validator.idx as int],
{
}

/// A reported validator is the one at the position that the report holds, in the same set.
pub proof fn law_reported_by_position<S>(validator: Validator<S>, i: int)
    requires
        validator.idx < validator.contents.active_validators@.len(),
        0 <= i < validator.contents.active_validators@[validator.idx as int].reports@.len(),
    ensures
        validator.reported(i).contents == validator.contents,
        validator.reported(i).idx
            == validator.contents.active_validators@[validator.idx as int].reports@[i],
{
}

/// The type of a validator is the struct `Validator` of the module `validator` at the address three,
/// without arguments.
pub proof fn law_validator_type()
    ensures
        validator_type() matches TypeTree::Struct(tag) && {
            &&& tag.address.len() == 32
            &&& tag.address[31] == 3
            &&& forall|i: int| 0 <= i < 31 ==> #[trigger] tag.address[i] == 0
            &&& tag.module == seq!['v', 'a', 'l', 'i', 'd', 'a', 't', 'o', 'r']
            &&& tag.name == seq!['V', 'a', 'l', 'i', 'd', 'a', 't', 'o', 'r']
            &&& tag.type_params.len() == 0
        },
{
    reveal_strlit("validator");
    reveal_strlit("Validator");
    assert("validator"@ =~= seq!['v', 'a', 'l', 'i', 'd', 'a', 't', 'o', 'r']);
    assert("Validator"@ =~= seq!['V', 'a', 'l', 'i', 'd', 'a', 't', 'o', 'r']);
}

} // verus!
