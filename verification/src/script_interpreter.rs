//! The script interpreter subset that exercises the covenant: stack and
//! splice operations, the hash opcodes, and the two signature checks.

use vstd::prelude::*;
use crate::script::{Op, OpCodeType, op_view, OpV};
use crate::hash::{single_sha256, double_sha256, sha256_of, dsha256_of};
use crate::secp::{ecdsa_verifies, pubkey_parses, sig_der_parses, verify_ecdsa_sig};

verus! {

#[derive(Clone, Copy, Debug, PartialEq, Eq, Structural)]
pub enum ScriptError {
    InvalidPubKey,
    InvalidSignatureFormat,
    InvalidSignature,
    NotImplemented,
}

pub struct ScriptInterpreter {
    pub stack: Vec<Vec<u8>>,
    pub pre_image_serialized: Vec<u8>,
}

/// The stack as a sequence of byte strings, bottom first.
pub open spec fn stack_view(stack: Seq<Vec<u8>>) -> Seq<Seq<u8>> {
    stack.map_values(|v: Vec<u8>| v@)
}

/// What one step of the interpreter does to the stack, or the error it
/// stops with. The signature checks run against the preimage the
/// interpreter was built over.
pub open spec fn step_result(
    st: Seq<Seq<u8>>,
    pre_image: Seq<u8>,
    op: OpV,
) -> Result<Seq<Seq<u8>>, ScriptError> {
    match op {
        OpV::Push(data) => Ok(st.push(data)),
        OpV::Code(code) => if code == 0x7c {  // swap
            if st.len() >= 2 {
                Ok(st.update(st.len() - 2, st.last()).update(st.len() - 1, st[st.len() - 2]))
            } else {
                Err(ScriptError::NotImplemented)
            }
        } else if code == 0x7e {  // concatenate
            if st.len() >= 2 {
                Ok(st.take(st.len() - 2).push(st[st.len() - 2] + st.last()))
            } else {
                Err(ScriptError::NotImplemented)
            }
        } else if code == 0xaa {  // double hash
            if st.len() >= 1 {
                Ok(st.take(st.len() - 1).push(dsha256_of(st.last())))
            } else {
                Err(ScriptError::NotImplemented)
            }
        } else if code == 0xa8 {  // single hash
            if st.len() >= 1 {
                Ok(st.take(st.len() - 1).push(sha256_of(st.last())))
            } else {
                Err(ScriptError::NotImplemented)
            }
        } else if code == 0x6f {  // duplicate the top three
            if st.len() >= 3 {
                Ok(st + st.skip(st.len() - 3))
            } else {
                Err(ScriptError::NotImplemented)
            }
        } else if code == 0x75 {  // drop
            if st.len() >= 1 {
                Ok(st.take(st.len() - 1))
            } else {
                Err(ScriptError::NotImplemented)
            }
        } else if code == 0x7b {  // rotate the third to the top
            if st.len() >= 3 {
                Ok(st.remove(st.len() - 3).push(st[st.len() - 3]))
            } else {
                Err(ScriptError::NotImplemented)
            }
        } else if code == 0xad {  // check signature against the preimage
            if st.len() >= 2 {
                let pk = st.last();
                let sig_with_type = st[st.len() - 2];
                let sig = if sig_with_type.len() >= 1 {
                    sig_with_type.take(sig_with_type.len() - 1)
                } else {
                    sig_with_type
                };
                if !pubkey_parses(pk) {
                    Err(ScriptError::InvalidPubKey)
                } else if !sig_der_parses(sig) {
                    Err(ScriptError::InvalidSignatureFormat)
                } else if !ecdsa_verifies(dsha256_of(pre_image), sig, pk) {
                    Err(ScriptError::InvalidSignature)
                } else {
                    Ok(st.take(st.len() - 2))
                }
            } else {
                Err(ScriptError::NotImplemented)
            }
        } else if code == 0xba {  // check signature against stacked data
            if st.len() >= 3 {
                let pk = st.last();
                let msg_data = st[st.len() - 2];
                let sig = st[st.len() - 3];
                if !pubkey_parses(pk) {
                    Err(ScriptError::InvalidPubKey)
                } else if sig_der_parses(sig) && ecdsa_verifies(sha256_of(msg_data), sig, pk) {
                    Ok(st.take(st.len() - 3).push(seq![1u8]))
                } else if !sig_der_parses(sig) {
                    Err(ScriptError::InvalidSignatureFormat)
                } else {
                    Ok(st.take(st.len() - 3).push(seq![0u8]))
                }
            } else {
                Err(ScriptError::NotImplemented)
            }
        } else {
            Err(ScriptError::NotImplemented)
        },
    }
}

/// The interpreter run over a whole operation list: each operation feeds
/// `step_result`, and the first error stops the run.
pub open spec fn run_steps(
    st: Seq<Seq<u8>>,
    pre_image: Seq<u8>,
    ops: Seq<OpV>,
) -> Result<Seq<Seq<u8>>, ScriptError>
    decreases ops.len(),
{
    if ops.len() == 0 {
        Ok(st)
    } else {
        match step_result(st, pre_image, ops.first()) {
            Ok(st2) => run_steps(st2, pre_image, ops.drop_first()),
            Err(e) => Err(e),
        }
    }
}

impl ScriptInterpreter {
    pub fn new(pre_image_serialized: Vec<u8>) -> (r: ScriptInterpreter)
        ensures
            stack_view(r.stack@) == Seq::<Seq<u8>>::empty(),
            r.pre_image_serialized@ == pre_image_serialized@,
    {
        let r = ScriptInterpreter { stack: Vec::new(), pre_image_serialized };
        proof {
            assert(stack_view(r.stack@) =~= Seq::<Seq<u8>>::empty());
        }
        r
    }

    pub fn stack(&self) -> (r: &[Vec<u8>])
        ensures
            r@ == self.stack@,
    {
        self.stack.as_slice()
    }

    /// Runs one operation; the stack afterwards is exactly what
    /// `step_result` says, and an error leaves it unchanged.
    pub fn run_op(&mut self, op: &Op) -> (r: Result<(), ScriptError>)
        requires
            step_result(
                stack_view(old(self).stack@),
                old(self).pre_image_serialized@,
                op_view(*op),
            ) is Err ==> !(op_view(*op) is Push),
        ensures
            final(self).pre_image_serialized@ == old(self).pre_image_serialized@,
            match r {
                Ok(()) => {
                    &&& step_result(
                        stack_view(old(self).stack@),
                        old(self).pre_image_serialized@,
                        op_view(*op),
                    ) == Ok::<_, ScriptError>(stack_view(final(self).stack@))
                },
                Err(e) => {
                    &&& step_result(
                        stack_view(old(self).stack@),
                        old(self).pre_image_serialized@,
                        op_view(*op),
                    ) == Err::<Seq<Seq<u8>>, ScriptError>(e)
                    &&& final(self).stack@ == old(self).stack@
                },
            },
    {
        let ghost st0 = stack_view(self.stack@);
        match op {
            Op::Push(data) => {
                self.stack.push(data.clone());
                proof {
                    assert(stack_view(self.stack@) =~= st0.push(data@));
                }
                Ok(())
            },
            Op::Code(code) => {
                let b = crate::script::opcode_byte(*code);
                let n = self.stack.len();
                if b == 0x7c {
                    if n < 2 {
                        return Err(ScriptError::NotImplemented);
                    }
                    let top = self.stack.remove(n - 1);
                    self.stack.insert(n - 2, top);
                    proof {
                        assert(stack_view(self.stack@) =~= st0.update(
                            st0.len() - 2,
                            st0.last(),
                        ).update(st0.len() - 1, st0[st0.len() - 2]));
                    }
                    Ok(())
                } else if b == 0x7e {
                    if n < 2 {
                        return Err(ScriptError::NotImplemented);
                    }
                    let mut first = self.stack.remove(n - 1);
                    let mut second = self.stack.remove(n - 2);
                    second.append(&mut first);
                    self.stack.push(second);
                    proof {
                        assert(stack_view(self.stack@) =~= st0.take(st0.len() - 2).push(
                            st0[st0.len() - 2] + st0.last(),
                        ));
                    }
                    Ok(())
                } else if b == 0xaa {
                    if n < 1 {
                        return Err(ScriptError::NotImplemented);
                    }
                    let top = self.stack.remove(n - 1);
                    let digest = double_sha256(top.as_slice());
                    let mut v: Vec<u8> = Vec::new();
                    v.extend_from_slice(digest.as_slice());
                    self.stack.push(v);
                    proof {
                        assert(top@ == st0.last());
                        assert(v@ =~= dsha256_of(st0.last()));
                        assert(stack_view(self.stack@) =~= st0.take(st0.len() - 1).push(
                            dsha256_of(st0.last()),
                        ));
                    }
                    Ok(())
                } else if b == 0xa8 {
                    if n < 1 {
                        return Err(ScriptError::NotImplemented);
                    }
                    let top = self.stack.remove(n - 1);
                    let digest = single_sha256(top.as_slice());
                    let mut v: Vec<u8> = Vec::new();
                    v.extend_from_slice(digest.as_slice());
                    self.stack.push(v);
                    proof {
                        assert(top@ == st0.last());
                        assert(v@ =~= sha256_of(st0.last()));
                        assert(stack_view(self.stack@) =~= st0.take(st0.len() - 1).push(
                            sha256_of(st0.last()),
                        ));
                    }
                    Ok(())
                } else if b == 0x6f {
                    if n < 3 {
                        return Err(ScriptError::NotImplemented);
                    }
                    let a = self.stack[n - 3].clone();
                    let bb = self.stack[n - 2].clone();
                    let c = self.stack[n - 1].clone();
                    self.stack.push(a);
                    self.stack.push(bb);
                    self.stack.push(c);
                    proof {
                        assert(stack_view(self.stack@) =~= st0 + st0.skip(st0.len() - 3));
                    }
                    Ok(())
                } else if b == 0x75 {
                    if n < 1 {
                        return Err(ScriptError::NotImplemented);
                    }
                    self.stack.remove(n - 1);
                    proof {
                        assert(stack_view(self.stack@) =~= st0.take(st0.len() - 1));
                    }
                    Ok(())
                } else if b == 0x7b {
                    if n < 3 {
                        return Err(ScriptError::NotImplemented);
                    }
                    let third = self.stack.remove(n - 3);
                    self.stack.push(third);
                    proof {
                        assert(stack_view(self.stack@) =~= stack_view(old(self).stack@).remove(
                            st0.len() - 3,
                        ).push(st0[st0.len() - 3]));
                    }
                    Ok(())
                } else if b == 0xad {
                    if n < 2 {
                        return Err(ScriptError::NotImplemented);
                    }
                    let pk = self.stack[n - 1].clone();
                    let mut sig = self.stack[n - 2].clone();
                    if sig.len() >= 1 {
                        sig.remove(sig.len() - 1);
                        proof {
                            assert(sig@ =~= stack_view(old(self).stack@)[n - 2].take(
                                stack_view(old(self).stack@)[n - 2].len() - 1,
                            ));
                        }
                    }
                    let msg = double_sha256(self.pre_image_serialized.as_slice());
                    let outcome = verify_ecdsa_sig(&msg, sig.as_slice(), pk.as_slice());
                    match outcome {
                        Err(e) => Err(e),
                        Ok(false) => Err(ScriptError::InvalidSignature),
                        Ok(true) => {
                            self.stack.remove(n - 1);
                            self.stack.remove(n - 2);
                            proof {
                                assert(stack_view(self.stack@) =~= st0.take(st0.len() - 2));
                            }
                            Ok(())
                        },
                    }
                } else if b == 0xba {
                    if n < 3 {
                        return Err(ScriptError::NotImplemented);
                    }
                    let pk = self.stack[n - 1].clone();
                    let msg_data = self.stack[n - 2].clone();
                    let sig = self.stack[n - 3].clone();
                    let msg = single_sha256(msg_data.as_slice());
                    let outcome = verify_ecdsa_sig(&msg, sig.as_slice(), pk.as_slice());
                    match outcome {
                        Err(e) => Err(e),
                        Ok(ok) => {
                            self.stack.remove(n - 1);
                            self.stack.remove(n - 2);
                            self.stack.remove(n - 3);
                            let mut flag: Vec<u8> = Vec::new();
                            flag.push(if ok {
                                1
                            } else {
                                0
                            });
                            self.stack.push(flag);
                            proof {
                                if ok {
                                    assert(stack_view(self.stack@) =~= st0.take(st0.len() - 3).push(
                                        seq![1u8],
                                    ));
                                } else {
                                    assert(stack_view(self.stack@) =~= st0.take(st0.len() - 3).push(
                                        seq![0u8],
                                    ));
                                }
                            }
                            Ok(())
                        },
                    }
                } else {
                    Err(ScriptError::NotImplemented)
                }
            },
        }
    }
}

} // verus!
