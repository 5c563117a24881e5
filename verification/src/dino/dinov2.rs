//! The layout of the vision transformer: the supported models, the parts of a
//! checkpoint with their paths and sizes, and the sizes of a forward pass.

use vstd::prelude::*;
use vstd::string::*;

use crate::dino::chunks::{chunk_at, chunk_count, chunks_of, Chunk};
use crate::text::{decimal, lemma_decimal_tells_number, push_count, same_text, text_of};

verus! {

/// How many query rows attention works on at a time.
pub const ATTN_CHUNK: usize = 512;

/// The side, in pixels, of the images that the checkpoints were trained on.
pub const PRETRAIN_SIZE: usize = 518;

/// The dimensions of a model.
#[derive(Clone, Copy, Debug)]
pub struct Config {
    pub embed_dim: usize,
    pub depth: usize,
    pub num_heads: usize,
    pub patch_size: usize,
    pub hf_repo: &'static str,
}

/// The error for a name that no supported model has.
#[derive(Debug)]
pub struct UnsupportedModel {
    pub name: String,
}

impl UnsupportedModel {
    /// The text of the error.
    pub open spec fn text(self) -> Seq<char> {
        "unsupported model '"@ + self.name@
            + "' (supported: dinov2_vits14, dinov2_vitb14, dinov2_vitl14)"@
    }

    /// The text of the error.
    pub fn message(&self) -> (text: String)
        ensures
            text@ == self.text(),
    {
        let mut text = text_of("unsupported model '");
        text.append(self.name.as_str());
        text.append("' (supported: dinov2_vits14, dinov2_vitb14, dinov2_vitl14)");
        text
    }
}

impl Config {
    /// The model has the given dimensions and repository.
    pub open spec fn is(
        self,
        embed_dim: int,
        depth: int,
        num_heads: int,
        hf_repo: Seq<char>,
    ) -> bool {
        &&& self.embed_dim == embed_dim
        &&& self.depth == depth
        &&& self.num_heads == num_heads
        &&& self.patch_size == 14
        &&& self.hf_repo@ == hf_repo
    }

    /// The dimensions divide evenly and stay small enough to compute with.
    pub open spec fn regular(self) -> bool {
        &&& 0 < self.num_heads
        &&& self.embed_dim % self.num_heads == 0
        &&& 0 < self.patch_size
        &&& self.embed_dim * 4 <= usize::MAX
    }

    /// The model with the given name.
    pub fn from_model_name(name: &str) -> (r: Result<Config, UnsupportedModel>)
        ensures
            name@ == "dinov2_vits14"@ ==> (r matches Ok(c) && c.is(
                384,
                12,
                6,
                "facebook/dinov2-small"@,
            )),
            name@ == "dinov2_vitb14"@ ==> (r matches Ok(c) && c.is(
                768,
                12,
                12,
                "facebook/dinov2-base"@,
            )),
            name@ == "dinov2_vitl14"@ ==> (r matches Ok(c) && c.is(
                1024,
                24,
                16,
                "facebook/dinov2-large"@,
            )),
            name@ != "dinov2_vits14"@ && name@ != "dinov2_vitb14"@ && name@ != "dinov2_vitl14"@
                ==> (r matches Err(e) && e.name@ == name@),
            r matches Ok(c) ==> c.regular() && c.embed_dim == 64 * c.num_heads,
            r matches Ok(c) ==> c.patch_size == 14 && c.embed_dim % c.num_heads == 0,
            name@ == "dinov2_vits14"@ ==> (r matches Ok(c) && c.embed_dim == 384 && c.depth == 12
                && c.num_heads == 6 && c.hf_repo@ == "facebook/dinov2-small"@),
            name@ == "dinov2_vitb14"@ ==> (r matches Ok(c) && c.embed_dim == 768 && c.depth == 12
                && c.num_heads == 12 && c.hf_repo@ == "facebook/dinov2-base"@),
            name@ == "dinov2_vitl14"@ ==> (r matches Ok(c) && c.embed_dim == 1024 && c.depth == 24
                && c.num_heads == 16 && c.hf_repo@ == "facebook/dinov2-large"@),
    {
        proof {
            reveal_strlit("dinov2_vits14");
            reveal_strlit("dinov2_vitb14");
            reveal_strlit("dinov2_vitl14");
            assert("dinov2_vits14"@[10] == 's');
            assert("dinov2_vitb14"@[10] == 'b');
            assert("dinov2_vitl14"@[10] == 'l');
        }
        if same_text(name, "dinov2_vits14") {
            Ok(
                Config {
                    embed_dim: 384,
                    depth: 12,
                    num_heads: 6,
                    patch_size: 14,
                    hf_repo: "facebook/dinov2-small",
                },
            )
        } else if same_text(name, "dinov2_vitb14") {
            Ok(
                Config {
                    embed_dim: 768,
                    depth: 12,
                    num_heads: 12,
                    patch_size: 14,
                    hf_repo: "facebook/dinov2-base",
                },
            )
        } else if same_text(name, "dinov2_vitl14") {
            Ok(
                Config {
                    embed_dim: 1024,
                    depth: 24,
                    num_heads: 16,
                    patch_size: 14,
                    hf_repo: "facebook/dinov2-large",
                },
            )
        } else {
            Err(UnsupportedModel { name: text_of(name) })
        }
    }
}

/// A linear layer of a checkpoint.
#[derive(Debug)]
pub struct LinearPlan {
    pub path: String,
    pub inputs: usize,
    pub outputs: usize,
}

/// A layer normalization of a checkpoint.
#[derive(Debug)]
pub struct NormPlan {
    pub path: String,
    pub dim: usize,
}

/// A single tensor of a checkpoint.
#[derive(Debug)]
pub struct TensorPlan {
    pub path: String,
    pub shape: Vec<usize>,
}

/// A convolution of a checkpoint, whose stride is its kernel's size.
#[derive(Debug)]
pub struct ConvPlan {
    pub path: String,
    pub inputs: usize,
    pub outputs: usize,
    pub kernel: usize,
}

/// The parts of an attention layer.
#[derive(Debug)]
pub struct AttentionPlan {
    pub query: LinearPlan,
    pub key: LinearPlan,
    pub value: LinearPlan,
    pub proj: LinearPlan,
    pub num_heads: usize,
    pub head_dim: usize,
}

/// The parts of a transformer block.
#[derive(Debug)]
pub struct BlockPlan {
    pub norm1: NormPlan,
    pub attn: AttentionPlan,
    pub ls1: TensorPlan,
    pub norm2: NormPlan,
    pub fc1: LinearPlan,
    pub fc2: LinearPlan,
    pub ls2: TensorPlan,
}

/// Where the positional embedding for a patch grid comes from.
#[derive(Clone, Copy, Debug, PartialEq, Eq, Structural)]
pub enum PosEmbedSource {
    /// The one worked out last, which was for the same grid.
    Cached,
    /// The checkpoint's own, which is for this grid.
    Native,
    /// The checkpoint's own, interpolated to this grid.
    Interpolated,
}

/// The sizes of a forward pass.
#[derive(Clone, Copy, Debug)]
pub struct ForwardPlan {
    /// How many patches the image has along its height and its width.
    pub grid: (usize, usize),
    pub pos_embed: PosEmbedSource,
}

/// The parts of the whole model, and the grid of the positional embedding that
/// was worked out last.
#[derive(Debug)]
pub struct DinoVisionTransformer {
    pub patch_proj: ConvPlan,
    pub cls_token: TensorPlan,
    pub pos_embed: TensorPlan,
    pub pos_grid_side: usize,
    pub blocks: Vec<BlockPlan>,
    pub norm: NormPlan,
    pub cfg: Config,
    pub pos_cache: Option<(usize, usize)>,
}

/// A path that goes on below `prefix`.
fn below(prefix: &str, rest: &str) -> (path: String)
    ensures
        path@ == prefix@ + rest@,
{
    let mut path = text_of(prefix);
    path.append(rest);
    path
}

impl LinearPlan {
    /// The layer is at `path` and maps `inputs` to `outputs` features.
    pub open spec fn is(self, path: Seq<char>, inputs: int, outputs: int) -> bool {
        self.path@ == path && self.inputs == inputs && self.outputs == outputs
    }
}

impl NormPlan {
    /// The layer is at `path` and normalizes `dim` features.
    pub open spec fn is(self, path: Seq<char>, dim: int) -> bool {
        self.path@ == path && self.dim == dim
    }
}

impl TensorPlan {
    /// The tensor is at `path` and has the given shape.
    pub open spec fn is(self, path: Seq<char>, shape: Seq<usize>) -> bool {
        self.path@ == path && self.shape@ == shape
    }
}

impl AttentionPlan {
    /// The parts below `prefix`, for `dim` features in `num_heads` heads.
    pub open spec fn is(self, prefix: Seq<char>, dim: int, num_heads: int) -> bool {
        &&& self.query.is(prefix + ".attention.query"@, dim, dim)
        &&& self.key.is(prefix + ".attention.key"@, dim, dim)
        &&& self.value.is(prefix + ".attention.value"@, dim, dim)
        &&& self.proj.is(prefix + ".output.dense"@, dim, dim)
        &&& self.num_heads == num_heads
        &&& self.head_dim == dim / num_heads
    }

    /// The parts of the attention layer at `prefix`.
    pub fn new(prefix: &str, dim: usize, num_heads: usize) -> (plan: AttentionPlan)
        requires
            num_heads > 0,
        ensures
            plan.is(prefix@, dim as int, num_heads as int),
            plan.query.path@ == prefix@ + ".attention.query"@,
            plan.key.path@ == prefix@ + ".attention.key"@,
            plan.value.path@ == prefix@ + ".attention.value"@,
            plan.proj.path@ == prefix@ + ".output.dense"@,
            plan.query.inputs == dim && plan.query.outputs == dim,
            plan.key.inputs == dim && plan.key.outputs == dim,
            plan.value.inputs == dim && plan.value.outputs == dim,
            plan.proj.inputs == dim && plan.proj.outputs == dim,
            plan.num_heads == num_heads,
            plan.head_dim == dim as int / num_heads as int,
    {
        AttentionPlan {
            query: LinearPlan {
                path: below(prefix, ".attention.query"),
                inputs: dim,
                outputs: dim,
            },
            key: LinearPlan { path: below(prefix, ".attention.key"), inputs: dim, outputs: dim },
            value: LinearPlan {
                path: below(prefix, ".attention.value"),
                inputs: dim,
                outputs: dim,
            },
            proj: LinearPlan { path: below(prefix, ".output.dense"), inputs: dim, outputs: dim },
            num_heads,
            head_dim: dim / num_heads,
        }
    }
}

/// The paths of the parts of an attention layer, from the block's path on.
proof fn lemma_attention_paths(prefix: Seq<char>)
    ensures
        prefix + ".attention"@ + ".attention.query"@ == prefix + ".attention.attention.query"@,
        prefix + ".attention"@ + ".attention.key"@ == prefix + ".attention.attention.key"@,
        prefix + ".attention"@ + ".attention.value"@ == prefix + ".attention.attention.value"@,
        prefix + ".attention"@ + ".output.dense"@ == prefix + ".attention.output.dense"@,
{
    reveal_strlit(".attention");
    reveal_strlit(".attention.query");
    reveal_strlit(".attention.attention.query");
    reveal_strlit(".attention.key");
    reveal_strlit(".attention.attention.key");
    reveal_strlit(".attention.value");
    reveal_strlit(".attention.attention.value");
    reveal_strlit(".output.dense");
    reveal_strlit(".attention.output.dense");
    assert(prefix + ".attention"@ + ".attention.query"@ =~= prefix
        + ".attention.attention.query"@);
    assert(prefix + ".attention"@ + ".attention.key"@ =~= prefix + ".attention.attention.key"@);
    assert(prefix + ".attention"@ + ".attention.value"@ =~= prefix
        + ".attention.attention.value"@);
    assert(prefix + ".attention"@ + ".output.dense"@ =~= prefix + ".attention.output.dense"@);
}

impl BlockPlan {
    /// The parts below `prefix`, for `dim` features in `num_heads` heads.
    pub open spec fn is(self, prefix: Seq<char>, dim: int, num_heads: int) -> bool {
        &&& self.norm1.is(prefix + ".norm1"@, dim)
        &&& self.attn.is(prefix + ".attention"@, dim, num_heads)
        &&& self.ls1.is(prefix + ".layer_scale1.lambda1"@, seq![dim as usize])
        &&& self.norm2.is(prefix + ".norm2"@, dim)
        &&& self.fc1.is(prefix + ".mlp.fc1"@, dim, dim * 4)
        &&& self.fc2.is(prefix + ".mlp.fc2"@, dim * 4, dim)
        &&& self.ls2.is(prefix + ".layer_scale2.lambda1"@, seq![dim as usize])
    }

    /// The parts of the transformer block at `prefix`.
    pub fn new(prefix: &str, dim: usize, num_heads: usize) -> (plan: BlockPlan)
        requires
            num_heads > 0,
            dim * 4 <= usize::MAX,
        ensures
            plan.is(prefix@, dim as int, num_heads as int),
            plan.norm1.path@ == prefix@ + ".norm1"@ && plan.norm1.dim == dim,
            plan.attn.query.path@ == prefix@ + ".attention.attention.query"@,
            plan.attn.key.path@ == prefix@ + ".attention.attention.key"@,
            plan.attn.value.path@ == prefix@ + ".attention.attention.value"@,
            plan.attn.proj.path@ == prefix@ + ".attention.output.dense"@,
            plan.attn.query.inputs == dim && plan.attn.query.outputs == dim,
            plan.attn.key.inputs == dim && plan.attn.key.outputs == dim,
            plan.attn.value.inputs == dim && plan.attn.value.outputs == dim,
            plan.attn.proj.inputs == dim && plan.attn.proj.outputs == dim,
            plan.attn.num_heads == num_heads,
            plan.attn.head_dim == dim as int / num_heads as int,
            plan.ls1.path@ == prefix@ + ".layer_scale1.lambda1"@ && plan.ls1.shape@ == seq![dim],
            plan.norm2.path@ == prefix@ + ".norm2"@ && plan.norm2.dim == dim,
            plan.fc1.path@ == prefix@ + ".mlp.fc1"@,
            plan.fc1.inputs == dim && plan.fc1.outputs == 4 * dim,
            plan.fc2.path@ == prefix@ + ".mlp.fc2"@,
            plan.fc2.inputs == 4 * dim && plan.fc2.outputs == dim,
            plan.ls2.path@ == prefix@ + ".layer_scale2.lambda1"@ && plan.ls2.shape@ == seq![dim],
    {
        proof {
            lemma_attention_paths(prefix@);
        }
        let attention = below(prefix, ".attention");
        let ls1: Vec<usize> = vec![dim];
        let ls2: Vec<usize> = vec![dim];
        assert(ls1@ =~= seq![dim] && ls2@ =~= seq![dim]);
        BlockPlan {
            norm1: NormPlan { path: below(prefix, ".norm1"), dim },
            attn: AttentionPlan::new(attention.as_str(), dim, num_heads),
            ls1: TensorPlan { path: below(prefix, ".layer_scale1.lambda1"), shape: ls1 },
            norm2: NormPlan { path: below(prefix, ".norm2"), dim },
            fc1: LinearPlan { path: below(prefix, ".mlp.fc1"), inputs: dim, outputs: dim * 4 },
            fc2: LinearPlan { path: below(prefix, ".mlp.fc2"), inputs: dim * 4, outputs: dim },
            ls2: TensorPlan { path: below(prefix, ".layer_scale2.lambda1"), shape: ls2 },
        }
    }
}

/// Where block `i` of the encoder is.
pub open spec fn block_path(i: int) -> Seq<char> {
    "encoder.layer."@ + decimal(i as nat)
}

/// How many patches a side of a pretraining image has.
pub open spec fn grid_side(cfg: Config) -> int {
    PRETRAIN_SIZE as int / cfg.patch_size as int
}

impl DinoVisionTransformer {
    /// The parts of a model with the given dimensions.
    pub open spec fn is(self, cfg: Config) -> bool {
        let dim = cfg.embed_dim;
        let side = grid_side(cfg);
        &&& self.patch_proj.path@ == "embeddings.patch_embeddings.projection"@
        &&& self.patch_proj.inputs == 3
        &&& self.patch_proj.outputs == dim
        &&& self.patch_proj.kernel == cfg.patch_size
        &&& self.cls_token.is("embeddings.cls_token"@, seq![1usize, 1usize, dim])
        &&& self.pos_embed.is(
            "embeddings.position_embeddings"@,
            seq![1usize, (side * side + 1) as usize, dim],
        )
        &&& self.pos_grid_side == side
        &&& self.blocks@.len() == cfg.depth
        &&& forall|i: int|
            0 <= i < cfg.depth ==> (#[trigger] self.blocks@[i]).is(
                block_path(i),
                dim as int,
                cfg.num_heads as int,
            )
        &&& self.norm.is("layernorm"@, dim as int)
        &&& self.cfg == cfg
    }

    /// Everything but the cache is as in `other`.
    pub open spec fn same_parts(self, other: DinoVisionTransformer) -> bool {
        &&& self.patch_proj == other.patch_proj
        &&& self.cls_token == other.cls_token
        &&& self.pos_embed == other.pos_embed
        &&& self.pos_grid_side == other.pos_grid_side
        &&& self.blocks == other.blocks
        &&& self.norm == other.norm
        &&& self.cfg == other.cfg
    }

    /// Where the positional embedding for a patch grid comes from.
    pub open spec fn source_for(self, h0: usize, w0: usize) -> PosEmbedSource {
        if self.pos_cache == Some((h0, w0)) {
            PosEmbedSource::Cached
        } else if h0 == self.pos_grid_side && w0 == self.pos_grid_side {
            PosEmbedSource::Native
        } else {
            PosEmbedSource::Interpolated
        }
    }

    /// The parts of a model with the given dimensions, with nothing cached.
    pub fn new(cfg: Config) -> (model: DinoVisionTransformer)
        requires
            cfg.num_heads > 0,
            cfg.patch_size > 0,
            cfg.embed_dim * 4 <= usize::MAX,
        ensures
            model.is(cfg),
            model.pos_cache is None,
            model.cfg == cfg,
            model.patch_proj.path@ == "embeddings.patch_embeddings.projection"@,
            model.patch_proj.inputs == 3 && model.patch_proj.outputs == cfg.embed_dim
                && model.patch_proj.kernel == cfg.patch_size,
            model.cls_token.path@ == "embeddings.cls_token"@,
            model.cls_token.shape@ == seq![1usize, 1usize, cfg.embed_dim],
            model.pos_embed.path@ == "embeddings.position_embeddings"@,
            model.pos_embed.shape@.len() == 3 && model.pos_embed.shape@[0] == 1
                && model.pos_embed.shape@[1] == model.pos_grid_side * model.pos_grid_side + 1
                && model.pos_embed.shape@[2] == cfg.embed_dim,
            model.pos_grid_side == 518int / cfg.patch_size as int,
            model.norm.path@ == "layernorm"@ && model.norm.dim == cfg.embed_dim,
            model.blocks@.len() == cfg.depth,
            forall|i: int|
                0 <= i < cfg.depth ==> {
                    let b = #[trigger] model.blocks@[i];
                    let path = "encoder.layer."@ + decimal(i as nat);
                    &&& b.norm1.path@ == path + ".norm1"@ && b.norm1.dim == cfg.embed_dim
                    &&& b.attn.query.path@ == path + ".attention.attention.query"@
                    &&& b.attn.key.path@ == path + ".attention.attention.key"@
                    &&& b.attn.value.path@ == path + ".attention.attention.value"@
                    &&& b.attn.proj.path@ == path + ".attention.output.dense"@
                    &&& b.attn.query.inputs == cfg.embed_dim
                    &&& b.attn.query.outputs == cfg.embed_dim
                    &&& b.attn.key.inputs == cfg.embed_dim
                    &&& b.attn.key.outputs == cfg.embed_dim
                    &&& b.attn.value.inputs == cfg.embed_dim
                    &&& b.attn.value.outputs == cfg.embed_dim
                    &&& b.attn.proj.inputs == cfg.embed_dim
                    &&& b.attn.proj.outputs == cfg.embed_dim
                    &&& b.attn.num_heads == cfg.num_heads
                    &&& b.attn.head_dim == cfg.embed_dim as int / cfg.num_heads as int
                    &&& b.ls1.path@ == path + ".layer_scale1.lambda1"@
                    &&& b.ls1.shape@ == seq![cfg.embed_dim]
                    &&& b.norm2.path@ == path + ".norm2"@ && b.norm2.dim == cfg.embed_dim
                    &&& b.fc1.path@ == path + ".mlp.fc1"@
                    &&& b.fc1.inputs == cfg.embed_dim && b.fc1.outputs == 4 * cfg.embed_dim
                    &&& b.fc2.path@ == path + ".mlp.fc2"@
                    &&& b.fc2.inputs == 4 * cfg.embed_dim && b.fc2.outputs == cfg.embed_dim
                    &&& b.ls2.path@ == path + ".layer_scale2.lambda1"@
                    &&& b.ls2.shape@ == seq![cfg.embed_dim]
                },
    {
        let dim: usize = cfg.embed_dim;
        let side: usize = PRETRAIN_SIZE / cfg.patch_size;
        assert(0 <= side <= PRETRAIN_SIZE) by {
            vstd::arithmetic::div_mod::lemma_div_is_ordered_by_denominator(
                PRETRAIN_SIZE as int,
                1,
                cfg.patch_size as int,
            );
        }
        assert(side * side <= 518 * 518) by (nonlinear_arith)
            requires
                0 <= side <= 518,
        ;
        let mut blocks: Vec<BlockPlan> = Vec::new();
        let mut i: usize = 0;
        while i < cfg.depth
            invariant
                i <= cfg.depth,
                dim == cfg.embed_dim,
                cfg.num_heads > 0,
                dim * 4 <= usize::MAX,
                blocks@.len() == i,
                forall|j: int|
                    0 <= j < i ==> (#[trigger] blocks@[j]).is(
                        block_path(j),
                        dim as int,
                        cfg.num_heads as int,
                    ),
            decreases cfg.depth - i,
        {
            let mut path = text_of("encoder.layer.");
            push_count(&mut path, i);
            blocks.push(BlockPlan::new(path.as_str(), dim, cfg.num_heads));
            i = i + 1;
        }
        assert forall|i: int| 0 <= i < cfg.depth implies (#[trigger] blocks@[i]).attn.query.path@
            == block_path(i) + ".attention.attention.query"@ && blocks@[i].attn.key.path@
            == block_path(i) + ".attention.attention.key"@ && blocks@[i].attn.value.path@
            == block_path(i) + ".attention.attention.value"@ && blocks@[i].attn.proj.path@
            == block_path(i) + ".attention.output.dense"@ by {
            lemma_attention_paths(block_path(i));
        }
        let cls_shape: Vec<usize> = vec![1, 1, dim];
        let pos_shape: Vec<usize> = vec![1, side * side + 1, dim];
        assert(cls_shape@ =~= seq![1usize, 1usize, dim]);
        assert(pos_shape@ =~= seq![1usize, (side * side + 1) as usize, dim]);
        DinoVisionTransformer {
            patch_proj: ConvPlan {
                path: text_of("embeddings.patch_embeddings.projection"),
                inputs: 3,
                outputs: dim,
                kernel: cfg.patch_size,
            },
            cls_token: TensorPlan { path: text_of("embeddings.cls_token"), shape: cls_shape },
            pos_embed: TensorPlan {
                path: text_of("embeddings.position_embeddings"),
                shape: pos_shape,
            },
            pos_grid_side: side,
            blocks,
            norm: NormPlan { path: text_of("layernorm"), dim },
            cfg,
            pos_cache: None,
        }
    }

    /// Where the positional embedding for a grid of `h0` by `w0` patches comes
    /// from. Afterwards the cache holds it.
    pub fn pos_embed_for(&mut self, h0: usize, w0: usize) -> (source: PosEmbedSource)
        ensures
            source == old(self).source_for(h0, w0),
            source is Cached <==> old(self).pos_cache == Some((h0, w0)),
            source is Native <==> old(self).pos_cache != Some((h0, w0)) && h0 == old(
                self,
            ).pos_grid_side && w0 == old(self).pos_grid_side,
            final(self).pos_cache == Some((h0, w0)),
            final(self).same_parts(*old(self)),
            *final(self) == (DinoVisionTransformer {
                pos_cache: Some((h0, w0)),
                ..*old(self)
            }),
    {
        if let Some((ch, cw)) = self.pos_cache {
            if ch == h0 && cw == w0 {
                return PosEmbedSource::Cached;
            }
        }
        self.pos_cache = Some((h0, w0));
        if h0 == self.pos_grid_side && w0 == self.pos_grid_side {
            PosEmbedSource::Native
        } else {
            PosEmbedSource::Interpolated
        }
    }

    /// The sizes of a forward pass on an image of `h` by `w` pixels.
    pub fn forward_features(&mut self, h: usize, w: usize) -> (plan: ForwardPlan)
        requires
            old(self).cfg.patch_size > 0,
        ensures
            plan.grid.0 == h as int / old(self).cfg.patch_size as int,
            plan.grid.1 == w as int / old(self).cfg.patch_size as int,
            plan.pos_embed == old(self).source_for(plan.grid.0, plan.grid.1),
            plan.pos_embed is Cached <==> old(self).pos_cache == Some(plan.grid),
            plan.pos_embed is Native <==> old(self).pos_cache != Some(plan.grid) && plan.grid == (
                old(self).pos_grid_side,
                old(self).pos_grid_side,
            ),
            final(self).pos_cache == Some(plan.grid),
            final(self).same_parts(*old(self)),
            *final(self) == (DinoVisionTransformer {
                pos_cache: Some(plan.grid),
                ..*old(self)
            }),
    {
        let h0: usize = h / self.cfg.patch_size;
        let w0: usize = w / self.cfg.patch_size;
        let pos_embed = self.pos_embed_for(h0, w0);
        ForwardPlan { grid: (h0, w0), pos_embed }
    }
}

/// The query rows that attention works on at a time, of `t` rows in all.
pub fn attention_chunks(t: usize) -> (chunks: Vec<Chunk>)
    ensures
        chunks@.len() == chunk_count(t as int, ATTN_CHUNK as int),
        forall|k: int|
            0 <= k < chunks@.len() ==> #[trigger] chunks@[k] == chunk_at(
                t as int,
                ATTN_CHUNK as int,
                k,
            ),
        forall|k: int|
            0 <= k < chunks@.len() ==> (#[trigger] chunks@[k]).start == k * 512 && chunks@[k].len
                == if t - k * 512 < 512 {
                t - k * 512
            } else {
                512int
            },
        t <= chunks@.len() * 512 < t + 512,
{
    chunks_of(t, ATTN_CHUNK)
}

/// Every supported model has heads of 64 features and, at the size of the
/// pretraining images, a grid of 37 by 37 patches.
pub proof fn law_supported_models(cfg: Config)
    requires
        cfg.is(384, 12, 6, "facebook/dinov2-small"@) || cfg.is(
            768,
            12,
            12,
            "facebook/dinov2-base"@,
        ) || cfg.is(1024, 24, 16, "facebook/dinov2-large"@),
    ensures
        cfg.embed_dim == 64 * cfg.num_heads,
        cfg.embed_dim as int / cfg.num_heads as int == 64,
        grid_side(cfg) == 37,
        cfg.regular(),
{
}

proof fn lemma_ends(prefix: Seq<char>, rest: Seq<char>, suffix: Seq<char>, cut: int)
    requires
        0 <= cut,
        cut + suffix.len() == rest.len(),
        forall|i: int| 0 <= i < suffix.len() ==> rest[cut + i] == #[trigger] suffix[i],
    ensures
        suffix.is_suffix_of(prefix + rest),
{
    let text = prefix + rest;
    assert(text.subrange(text.len() - suffix.len(), text.len() as int) =~= suffix);
}

proof fn lemma_begins(path: Seq<char>, rest: Seq<char>)
    requires
        rest.len() > 0,
        rest[0] == '.',
    ensures
        (path + "."@).is_prefix_of(path + rest),
{
    reveal_strlit(".");
    assert((path + rest).subrange(0, path.len() as int + 1) =~= path + "."@);
}

/// Every part of a block is loaded from below the block's own path, and the
/// name that its path ends in is the role in which the part is used.
pub proof fn law_parts_are_at_their_roles(model: DinoVisionTransformer, cfg: Config, i: int)
    requires
        model.is(cfg),
        0 <= i < cfg.depth,
    ensures
        ({
            let b = model.blocks@[i];
            let path = "encoder.layer."@ + decimal(i as nat) + "."@;
            &&& ".query"@.is_suffix_of(b.attn.query.path@)
            &&& ".key"@.is_suffix_of(b.attn.key.path@)
            &&& ".value"@.is_suffix_of(b.attn.value.path@)
            &&& ".output.dense"@.is_suffix_of(b.attn.proj.path@)
            &&& ".norm1"@.is_suffix_of(b.norm1.path@)
            &&& ".norm2"@.is_suffix_of(b.norm2.path@)
            &&& ".fc1"@.is_suffix_of(b.fc1.path@)
            &&& ".fc2"@.is_suffix_of(b.fc2.path@)
            &&& ".layer_scale1.lambda1"@.is_suffix_of(b.ls1.path@)
            &&& ".layer_scale2.lambda1"@.is_suffix_of(b.ls2.path@)
            &&& path.is_prefix_of(b.attn.query.path@)
            &&& path.is_prefix_of(b.attn.key.path@)
            &&& path.is_prefix_of(b.attn.value.path@)
            &&& path.is_prefix_of(b.attn.proj.path@)
            &&& path.is_prefix_of(b.norm1.path@)
            &&& path.is_prefix_of(b.norm2.path@)
            &&& path.is_prefix_of(b.fc1.path@)
            &&& path.is_prefix_of(b.fc2.path@)
            &&& path.is_prefix_of(b.ls1.path@)
            &&& path.is_prefix_of(b.ls2.path@)
        }),
{
    let b = model.blocks@[i];
    let path = block_path(i);
    reveal_strlit(".");
    reveal_strlit(".attention");
    reveal_strlit(".attention.query");
    reveal_strlit(".query");
    reveal_strlit(".attention.key");
    reveal_strlit(".key");
    reveal_strlit(".attention.value");
    reveal_strlit(".value");
    reveal_strlit(".output.dense");
    reveal_strlit(".norm1");
    reveal_strlit(".norm2");
    reveal_strlit(".mlp.fc1");
    reveal_strlit(".fc1");
    reveal_strlit(".mlp.fc2");
    reveal_strlit(".fc2");
    reveal_strlit(".layer_scale1.lambda1");
    reveal_strlit(".layer_scale2.lambda1");
    lemma_ends(path + ".attention"@, ".attention.query"@, ".query"@, 10);
    lemma_ends(path + ".attention"@, ".attention.key"@, ".key"@, 10);
    lemma_ends(path + ".attention"@, ".attention.value"@, ".value"@, 10);
    lemma_ends(path + ".attention"@, ".output.dense"@, ".output.dense"@, 0);
    lemma_ends(path, ".norm1"@, ".norm1"@, 0);
    lemma_ends(path, ".norm2"@, ".norm2"@, 0);
    lemma_ends(path, ".mlp.fc1"@, ".fc1"@, 4);
    lemma_ends(path, ".mlp.fc2"@, ".fc2"@, 4);
    lemma_ends(path, ".layer_scale1.lambda1"@, ".layer_scale1.lambda1"@, 0);
    lemma_ends(path, ".layer_scale2.lambda1"@, ".layer_scale2.lambda1"@, 0);
    lemma_begins(path, ".attention"@ + ".attention.query"@);
    lemma_begins(path, ".attention"@ + ".attention.key"@);
    lemma_begins(path, ".attention"@ + ".attention.value"@);
    lemma_begins(path, ".attention"@ + ".output.dense"@);
    lemma_begins(path, ".norm1"@);
    lemma_begins(path, ".norm2"@);
    lemma_begins(path, ".mlp.fc1"@);
    lemma_begins(path, ".mlp.fc2"@);
    lemma_begins(path, ".layer_scale1.lambda1"@);
    lemma_begins(path, ".layer_scale2.lambda1"@);
    assert(path + ".attention"@ + ".attention.query"@ =~= path + (".attention"@
        + ".attention.query"@));
    assert(path + ".attention"@ + ".attention.key"@ =~= path + (".attention"@
        + ".attention.key"@));
    assert(path + ".attention"@ + ".attention.value"@ =~= path + (".attention"@
        + ".attention.value"@));
    assert(path + ".attention"@ + ".output.dense"@ =~= path + (".attention"@
        + ".output.dense"@));
}

/// No two blocks share a part: the same part of two blocks is at two paths.
pub proof fn law_blocks_have_parts_of_their_own(
    model: DinoVisionTransformer,
    cfg: Config,
    i: int,
    j: int,
)
    requires
        model.is(cfg),
        0 <= i < cfg.depth,
        0 <= j < cfg.depth,
        i != j,
    ensures
        ({
            let a = model.blocks@[i];
            let b = model.blocks@[j];
            &&& a.norm1.path@ != b.norm1.path@
            &&& a.attn.query.path@ != b.attn.query.path@
            &&& a.attn.key.path@ != b.attn.key.path@
            &&& a.attn.value.path@ != b.attn.value.path@
            &&& a.attn.proj.path@ != b.attn.proj.path@
            &&& a.ls1.path@ != b.ls1.path@
            &&& a.norm2.path@ != b.norm2.path@
            &&& a.fc1.path@ != b.fc1.path@
            &&& a.fc2.path@ != b.fc2.path@
            &&& a.ls2.path@ != b.ls2.path@
        }),
{
    let a = model.blocks@[i];
    let b = model.blocks@[j];
    assert(a.is(block_path(i), cfg.embed_dim as int, cfg.num_heads as int));
    assert(b.is(block_path(j), cfg.embed_dim as int, cfg.num_heads as int));
    lemma_own_path(i as nat, j as nat, ".norm1"@);
    lemma_own_path(i as nat, j as nat, ".attention"@ + ".attention.query"@);
    lemma_own_path(i as nat, j as nat, ".attention"@ + ".attention.key"@);
    lemma_own_path(i as nat, j as nat, ".attention"@ + ".attention.value"@);
    lemma_own_path(i as nat, j as nat, ".attention"@ + ".output.dense"@);
    lemma_own_path(i as nat, j as nat, ".layer_scale1.lambda1"@);
    lemma_own_path(i as nat, j as nat, ".norm2"@);
    lemma_own_path(i as nat, j as nat, ".mlp.fc1"@);
    lemma_own_path(i as nat, j as nat, ".mlp.fc2"@);
    lemma_own_path(i as nat, j as nat, ".layer_scale2.lambda1"@);
    assert forall|path: Seq<char>, x: Seq<char>, y: Seq<char>| #[trigger] (path + x + y) == path
        + (x + y) by {
        assert(path + x + y =~= path + (x + y));
    }
}

proof fn lemma_own_path(i: nat, j: nat, rest: Seq<char>)
    requires
        i != j,
    ensures
        "encoder.layer."@ + decimal(i) + rest != "encoder.layer."@ + decimal(j) + rest,
{
    let start = "encoder.layer."@;
    let a = start + decimal(i) + rest;
    let b = start + decimal(j) + rest;
    if a == b {
        assert(a.len() == start.len() + decimal(i).len() + rest.len());
        assert(b.len() == start.len() + decimal(j).len() + rest.len());
        let n = start.len() as int;
        let m = n + decimal(i).len();
        assert(a.subrange(n, m) =~= decimal(i));
        assert(b.subrange(n, m) =~= decimal(j));
        lemma_decimal_tells_number(i, j);
    }
}

/// The positional embedding that was asked for last is cached; any other is the
/// model's own on the grid it was trained with, and interpolated on all others.
pub proof fn law_source_of_positional_embedding(
    model: DinoVisionTransformer,
    after: DinoVisionTransformer,
    h0: usize,
    w0: usize,
)
    requires
        after.same_parts(model),
        after.pos_cache == Some((h0, w0)),
    ensures
        after.source_for(h0, w0) is Cached,
        model.pos_cache is None && h0 == model.pos_grid_side && w0 == model.pos_grid_side
            ==> model.source_for(h0, w0) is Native,
        model.pos_cache is None && !(h0 == model.pos_grid_side && w0 == model.pos_grid_side)
            ==> model.source_for(h0, w0) is Interpolated,
        forall|h1: usize, w1: usize|
            (h1 != h0 || w1 != w0) ==> #[trigger] after.source_for(h1, w1) == (DinoVisionTransformer {
                pos_cache: None,
                ..model
            }).source_for(h1, w1),
{
}

/// What leaves the parts of a model as they are leaves each of them as it is.
pub proof fn law_same_parts(a: DinoVisionTransformer, b: DinoVisionTransformer)
    requires
        a.same_parts(b),
    ensures
        a == (DinoVisionTransformer { pos_cache: a.pos_cache, ..b }),
{
}

} // verus!
