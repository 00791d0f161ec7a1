//! O que cada linha das tabelas traz.

use vstd::prelude::*;
use vstd::string::*;

use crate::balanceador::{conf_do_balanceador, servidores, upstream};
use crate::config::{nome_do_receptor, Config, GeradorPlano};
use crate::decimal::digitos;
use crate::latencias::{maximo, percentil, registradas};
use crate::metricas::{Agregado, Conferencia, EstatReceptor};
use crate::numerais::escrito;
use crate::plano::{
    apresentacao, cabecalho_do_plano, linha_do_item, linha_do_plano, linhas_do_plano, soma_das_taxas,
};
use crate::reais::Real;
use crate::relatorio::{
    com_milhares, diferenca, em_decimal, em_latencia, em_pct, em_pct_com_sinal, envio_de, fatia_ideal,
    linha_do_gerador, linha_do_receptor, linha_gerador, linha_receptor, linhas_dos_receptores,
    porcentagem, secao_receptores, EnvioGerador, Relatorio, Resumo, Veredito,
};
use crate::tabela::{contagem, obtido};
use crate::texto::{a_direita, a_esquerda, contem, repetido};
use crate::trechos::{lemma_contem_em, lemma_cresce, lemma_no_fim, lemma_no_meio, lemma_rotulado};

verus! {

proof fn lemma_coluna(antes: Seq<char>, s: Seq<char>, w: nat)
    ensures
        contem(antes + a_direita(s, w), s),
        contem(antes + a_esquerda(s, w), s),
{
    let d = a_direita(s, w);
    let e = a_esquerda(s, w);
    let i = antes.len() + d.len() - s.len();
    let j = antes.len() as int;
    assert((antes + d).subrange(i, i + s.len()) =~= s);
    assert((antes + e).subrange(j, j + s.len()) =~= s);
}

// ---- Receptores ----

/// A linha de um receptor traz o nome dele, quantas mensagens recebeu, a fatia delas no total, o desvio
/// da fatia ideal, o 50º e o 99º percentis das latências e a maior.
pub proof fn lei_linha_do_receptor(r: EstatReceptor, recebidas: u64, ideal: Real)
    ensures
        ({
            let linha = linha_do_receptor(r, recebidas, ideal);
            let fatia = porcentagem(r.recebidas as int, recebidas);
            let m = registradas(r.latencia);
            &&& contem(linha, r.nome@)
            &&& contem(linha, com_milhares(r.recebidas))
            &&& contem(linha, em_pct(fatia))
            &&& contem(linha, em_pct_com_sinal(fatia.diferenca(ideal)))
            &&& contem(linha, em_latencia(percentil(m, 50) as u64))
            &&& contem(linha, em_latencia(percentil(m, 99) as u64))
            &&& contem(linha, em_latencia(maximo(m) as u64))
        }),
{
    let fatia = porcentagem(r.recebidas as int, recebidas);
    let m = registradas(r.latencia);
    lemma_linha_receptor(
        r.nome@,
        com_milhares(r.recebidas),
        em_pct(fatia),
        em_pct_com_sinal(fatia.diferenca(ideal)),
        em_latencia(percentil(m, 50) as u64),
        em_latencia(percentil(m, 99) as u64),
        em_latencia(maximo(m) as u64),
    );
}

proof fn lemma_linha_receptor(
    nome: Seq<char>,
    mensagens: Seq<char>,
    fatia: Seq<char>,
    desvio: Seq<char>,
    p50: Seq<char>,
    p99: Seq<char>,
    maior: Seq<char>,
)
    ensures
        ({
            let linha = linha_receptor(nome, mensagens, fatia, desvio, p50, p99, maior);
            &&& contem(linha, nome)
            &&& contem(linha, mensagens)
            &&& contem(linha, fatia)
            &&& contem(linha, desvio)
            &&& contem(linha, p50)
            &&& contem(linha, p99)
            &&& contem(linha, maior)
        }),
{
    let e = " "@;
    let c0 = Seq::<char>::empty();
    let s1 = a_esquerda(nome, 10);
    lemma_coluna(c0, nome, 10);
    assert(c0 + s1 =~= s1);
    let s2 = s1 + e + a_direita(mensagens, 12);
    let s3 = s2 + e + a_direita(fatia, 9);
    let s4 = s3 + e + a_direita(desvio, 9);
    let s5 = s4 + e + a_direita(p50, 9);
    let s6 = s5 + e + a_direita(p99, 9);
    let s7 = s6 + e + a_direita(maior, 9);
    lemma_cresce(s1, e);
    lemma_cresce(s1 + e, a_direita(mensagens, 12));
    lemma_coluna(s1 + e, mensagens, 12);
    lemma_cresce(s2, e);
    lemma_cresce(s2 + e, a_direita(fatia, 9));
    lemma_coluna(s2 + e, fatia, 9);
    lemma_cresce(s3, e);
    lemma_cresce(s3 + e, a_direita(desvio, 9));
    lemma_coluna(s3 + e, desvio, 9);
    lemma_cresce(s4, e);
    lemma_cresce(s4 + e, a_direita(p50, 9));
    lemma_coluna(s4 + e, p50, 9);
    lemma_cresce(s5, e);
    lemma_cresce(s5 + e, a_direita(p99, 9));
    lemma_coluna(s5 + e, p99, 9);
    lemma_cresce(s6, e);
    lemma_cresce(s6 + e, a_direita(maior, 9));
    lemma_coluna(s6 + e, maior, 9);
    lemma_cresce(s7, "\n"@);
}

/// A seção dos receptores acaba com o desvio máximo e o veredito dele, depois das linhas de todos.
pub proof fn lei_secao_dos_receptores(cfg: Config, ag: Agregado, r: Resumo)
    ensures
        contem(
            secao_receptores(cfg, ag, r),
            linhas_dos_receptores(
                ag.receptores@,
                r.recebidas,
                fatia_ideal(cfg.receptores.quantidade),
            ),
        ),
        contem(
            secao_receptores(cfg, ag, r),
            "\ndesvio máximo: "@ + em_pct(r.desvio_maximo) + "   ->  "@ + Veredito::do_desvio(
                r.desvio_maximo,
            ).escrito() + "\n"@,
        ),
{
    lemma_partes_da_secao(
        "\n=== POR RECEPTOR (balanceamento) ===\n"@,
        linha_receptor(
            "receptor"@,
            "mensagens"@,
            "fatia"@,
            "desvio"@,
            "p50"@,
            "p99"@,
            "máx"@,
        ),
        linhas_dos_receptores(
            ag.receptores@,
            r.recebidas,
            fatia_ideal(cfg.receptores.quantidade),
        ),
        repetido('-', 72),
        "\ndesvio máximo: "@,
        em_pct(r.desvio_maximo),
        "   ->  "@,
        Veredito::do_desvio(r.desvio_maximo).escrito(),
        "\n"@,
    );
}

proof fn lemma_partes_da_secao(
    titulo: Seq<char>,
    colunas: Seq<char>,
    linhas: Seq<char>,
    traco: Seq<char>,
    a: Seq<char>,
    b: Seq<char>,
    c: Seq<char>,
    d: Seq<char>,
    e: Seq<char>,
)
    ensures
        ({
            let s = titulo + colunas + linhas + traco + a + b + c + d + e;
            contem(s, linhas) && contem(s, a + b + c + d + e)
        }),
{
    let antes = titulo + colunas;
    let ate_o_traco = antes + linhas + traco;
    let fim = a + b + c + d + e;
    lemma_no_fim(antes, linhas);
    lemma_cresce(antes + linhas, traco);
    lemma_cresce(ate_o_traco, a);
    lemma_cresce(ate_o_traco + a, b);
    lemma_cresce(ate_o_traco + a + b, c);
    lemma_cresce(ate_o_traco + a + b + c, d);
    lemma_cresce(ate_o_traco + a + b + c + d, e);
    lemma_no_fim(ate_o_traco, fim);
    assert(ate_o_traco + a + b =~= ate_o_traco + (a + b));
    assert(ate_o_traco + (a + b) + c =~= ate_o_traco + (a + b + c));
    assert(ate_o_traco + (a + b + c) + d =~= ate_o_traco + (a + b + c + d));
    assert(ate_o_traco + (a + b + c + d) + e =~= ate_o_traco + fim);
}

/// Vereditos diferentes se escrevem de modo diferente.
pub proof fn lei_vereditos_distintos(a: Veredito, b: Veredito)
    requires
        a.escrito() == b.escrito(),
    ensures
        a == b,
{
    reveal_strlit("BALANCEADO");
    reveal_strlit("DESVIO LEVE");
    reveal_strlit("DESBALANCEADO");
    assert("BALANCEADO"@.len() == 10 && "DESVIO LEVE"@.len() == 11 && "DESBALANCEADO"@.len() == 13);
}

// ---- Geradores ----

proof fn lemma_linha_gerador(
    nome: Seq<char>,
    proto: Seq<char>,
    fatia: Seq<char>,
    enviadas: Seq<char>,
    recebidas: Seq<char>,
    perdidas: Seq<char>,
)
    ensures
        ({
            let linha = linha_gerador(nome, proto, fatia, enviadas, recebidas, perdidas);
            &&& contem(linha, nome)
            &&& contem(linha, proto)
            &&& contem(linha, fatia)
            &&& contem(linha, enviadas)
            &&& contem(linha, recebidas)
            &&& contem(linha, perdidas)
        }),
{
    let e = " "@;
    let c0 = Seq::<char>::empty();
    let s1 = a_esquerda(nome, 10);
    lemma_coluna(c0, nome, 10);
    assert(c0 + s1 =~= s1);
    let s2 = s1 + e + a_direita(proto, 6);
    let s3 = s2 + e + a_direita(fatia, 7);
    let s4 = s3 + e + a_direita(enviadas, 12);
    let s5 = s4 + e + a_direita(recebidas, 12);
    let s6 = s5 + e + a_direita(perdidas, 20);
    lemma_cresce(s1, e);
    lemma_cresce(s1 + e, a_direita(proto, 6));
    lemma_coluna(s1 + e, proto, 6);
    lemma_cresce(s2, e);
    lemma_cresce(s2 + e, a_direita(fatia, 7));
    lemma_coluna(s2 + e, fatia, 7);
    lemma_cresce(s3, e);
    lemma_cresce(s3 + e, a_direita(enviadas, 12));
    lemma_coluna(s3 + e, enviadas, 12);
    lemma_cresce(s4, e);
    lemma_cresce(s4 + e, a_direita(recebidas, 12));
    lemma_coluna(s4 + e, recebidas, 12);
    lemma_cresce(s5, e);
    lemma_cresce(s5 + e, a_direita(perdidas, 20));
    lemma_coluna(s5 + e, perdidas, 20);
    lemma_cresce(s6, "\n"@);
}

/// A linha de um gerador traz o nome e o protocolo dele e, se deixou relatório, quantas mensagens
/// enviou, quantas se receberam dele e quantas se perderam, com a porcentagem; se não deixou, diz
/// isso. A fatia é a do plano, ou `fixa` se a taxa é própria.
pub proof fn lei_linha_do_gerador(
    p: GeradorPlano,
    es: Seq<EnvioGerador>,
    por_gerador: Seq<(Seq<char>, u64)>,
)
    ensures
        ({
            let linha = linha_do_gerador(p, es, por_gerador);
            let recebidas = contagem(por_gerador, p.nome@);
            &&& contem(linha, p.nome@)
            &&& contem(linha, p.proto.escrito())
            &&& envio_de(es, p.nome@) is None ==> contem(linha, "sem relatório"@)
            &&& envio_de(es, p.nome@) matches Some(e) ==> {
                let d = e.enviadas_uteis - recebidas;
                &&& contem(linha, com_milhares(e.enviadas_uteis))
                &&& contem(linha, com_milhares(recebidas))
                &&& p.taxa_explicita ==> contem(linha, "fixa"@)
                &&& !p.taxa_explicita ==> contem(
                    linha,
                    em_pct(p.fatia.produto(Real::do_inteiro(100))),
                )
                &&& 0 <= d <= i64::MAX ==> contem(
                    linha,
                    com_milhares(d as u64) + " ("@ + em_pct(porcentagem(d, e.enviadas_uteis))
                        + ")"@,
                )
                &&& -i64::MAX <= d < 0 ==> contem(
                    linha,
                    com_milhares((-d) as u64) + " ("@ + em_pct(porcentagem(d, e.enviadas_uteis))
                        + ")"@,
                )
            }
        }),
{
    match envio_de(es, p.nome@) {
        None => {
            lemma_linha_gerador(p.nome@, p.proto.escrito(), "-"@, "sem relatório"@, "-"@, "-"@);
        },
        Some(e) => {
            let recebidas = contagem(por_gerador, p.nome@);
            let perdidas = diferenca(e.enviadas_uteis, recebidas);
            let fatia = if p.taxa_explicita {
                "fixa"@
            } else {
                em_pct(p.fatia.produto(Real::do_inteiro(100)))
            };
            lemma_linha_gerador(
                p.nome@,
                p.proto.escrito(),
                fatia,
                com_milhares(e.enviadas_uteis),
                com_milhares(recebidas),
                com_milhares(
                    if perdidas >= 0 {
                        perdidas as u64
                    } else {
                        (-perdidas) as u64
                    },
                ) + " ("@ + em_pct(porcentagem(perdidas as int, e.enviadas_uteis)) + ")"@,
            );
        },
    }
}

/// A linha de um gerador no plano traz o nome, o protocolo, o peso, a taxa, as threads e o tamanho das
/// mensagens dele; a fatia é `fixa` se a taxa é própria.
pub proof fn lei_linha_do_item(p: GeradorPlano)
    ensures
        ({
            let linha = linha_do_item(p);
            &&& contem(linha, p.nome@)
            &&& contem(linha, p.proto.escrito())
            &&& contem(linha, escrito(p.peso, 0, false))
            &&& p.taxa_explicita ==> contem(linha, "fixa"@)
            &&& !p.taxa_explicita ==> contem(linha, em_pct(p.fatia.produto(Real::do_inteiro(100))))
            &&& contem(linha, com_milhares(p.taxa))
            &&& contem(linha, digitos(p.threads as nat))
            &&& contem(linha, digitos(p.tamanho_mensagem as nat))
        }),
{
    lemma_linha_do_plano(
        p.nome@,
        p.proto.escrito(),
        escrito(p.peso, 0, false),
        if p.taxa_explicita {
            "fixa"@
        } else {
            em_pct(p.fatia.produto(Real::do_inteiro(100)))
        },
        com_milhares(p.taxa),
        digitos(p.threads as nat),
        digitos(p.tamanho_mensagem as nat),
    );
}

proof fn lemma_linha_do_plano(
    nome: Seq<char>,
    proto: Seq<char>,
    peso: Seq<char>,
    fatia: Seq<char>,
    taxa: Seq<char>,
    threads: Seq<char>,
    bytes: Seq<char>,
)
    ensures
        ({
            let linha = linha_do_plano(nome, proto, peso, fatia, taxa, threads, bytes);
            &&& contem(linha, nome)
            &&& contem(linha, proto)
            &&& contem(linha, peso)
            &&& contem(linha, fatia)
            &&& contem(linha, taxa)
            &&& contem(linha, threads)
            &&& contem(linha, bytes)
        }),
{
    let e = " "@;
    let c0 = Seq::<char>::empty();
    let s1 = a_esquerda(nome, 10);
    lemma_coluna(c0, nome, 10);
    assert(c0 + s1 =~= s1);
    let s2 = s1 + e + a_direita(proto, 6);
    let s3 = s2 + e + a_direita(peso, 8);
    let s4 = s3 + e + a_direita(fatia, 9);
    let s5 = s4 + e + a_direita(taxa, 12);
    let s6 = s5 + e + a_direita(threads, 9);
    let s7 = s6 + e + a_direita(bytes, 9);
    lemma_cresce(s1, e);
    lemma_cresce(s1 + e, a_direita(proto, 6));
    lemma_coluna(s1 + e, proto, 6);
    lemma_cresce(s2, e);
    lemma_cresce(s2 + e, a_direita(peso, 8));
    lemma_coluna(s2 + e, peso, 8);
    lemma_cresce(s3, e);
    lemma_cresce(s3 + e, a_direita(fatia, 9));
    lemma_coluna(s3 + e, fatia, 9);
    lemma_cresce(s4, e);
    lemma_cresce(s4 + e, a_direita(taxa, 12));
    lemma_coluna(s4 + e, taxa, 12);
    lemma_cresce(s5, e);
    lemma_cresce(s5 + e, a_direita(threads, 9));
    lemma_coluna(s5 + e, threads, 9);
    lemma_cresce(s6, e);
    lemma_cresce(s6 + e, a_direita(bytes, 9));
    lemma_coluna(s6 + e, bytes, 9);
    lemma_cresce(s7, "\n"@);
}

/// A apresentação do plano traz a linha de cada gerador e acaba com o total das taxas, em 64 bits.
pub proof fn lei_apresentacao(
    caminho: Seq<char>,
    distribuicao: Seq<char>,
    cfg: Config,
    ps: Seq<GeradorPlano>,
)
    ensures
        ({
            let s = apresentacao(caminho, distribuicao, cfg, ps);
            let total = (soma_das_taxas(ps) % 0x1_0000_0000_0000_0000) as u64;
            contem(s, linhas_do_plano(ps)) && contem(s, com_milhares(total))
        }),
{
    lemma_partes_da_apresentacao(
        cabecalho_do_plano(caminho, distribuicao, cfg),
        linha_do_plano(
            "gerador"@,
            "proto"@,
            "peso"@,
            "fatia"@,
            "msgs/s"@,
            "threads"@,
            "bytes"@,
        ),
        linhas_do_plano(ps),
        repetido('-', 70),
        "\n"@,
        a_esquerda("TOTAL"@, 10),
        " "@,
        com_milhares((soma_das_taxas(ps) % 0x1_0000_0000_0000_0000) as u64),
        "\n"@,
    );
}

/// O cabeçalho do plano traz o arquivo da configuração, a distribuição, os tempos do teste, os receptores,
/// o modo TLS e a fila do relay, cada um no seu lugar.
pub proof fn lei_cabecalho_do_plano(caminho: Seq<char>, distribuicao: Seq<char>, cfg: Config)
    ensures
        ({
            let c = cabecalho_do_plano(caminho, distribuicao, cfg);
            &&& contem(c, "Configuração válida: "@ + caminho + "\nDistribuição: "@)
            &&& contem(c, "\nDistribuição: "@ + distribuicao + "\n\nDuração "@)
            &&& contem(c, "\n\nDuração "@ + em_decimal(cfg.teste.duracao.segundos_reais(), 0) + "s (aquecimento "@)
            &&& contem(c, "s (aquecimento "@ + em_decimal(cfg.teste.aquecimento.segundos_reais(), 0) + "s, drenagem "@)
            &&& contem(c, "s, drenagem "@ + em_decimal(cfg.teste.drenagem.segundos_reais(), 0) + "s)\nReceptores: "@)
            &&& contem(c, "s)\nReceptores: "@ + digitos(cfg.receptores.quantidade as nat) + "   TLS: "@)
            &&& contem(c, "   TLS: "@ + cfg.tls.modo.escrito() + "   Fila do relay: "@)
            &&& contem(c, "   Fila do relay: "@ + com_milhares(cfg.relay.tamanho_fila) + " ("@)
            &&& contem(c, " ("@ + digitos(cfg.relay.workers_fila as nat) + " worker(s))\n\n=== PLANO DE CARGA ===\n"@)
        }),
{
    lemma_dezenove_partes(
        "Configuração válida: "@,
        caminho,
        "\nDistribuição: "@,
        distribuicao,
        "\n\nDuração "@,
        em_decimal(cfg.teste.duracao.segundos_reais(), 0),
        "s (aquecimento "@,
        em_decimal(cfg.teste.aquecimento.segundos_reais(), 0),
        "s, drenagem "@,
        em_decimal(cfg.teste.drenagem.segundos_reais(), 0),
        "s)\nReceptores: "@,
        digitos(cfg.receptores.quantidade as nat),
        "   TLS: "@,
        cfg.tls.modo.escrito(),
        "   Fila do relay: "@,
        com_milhares(cfg.relay.tamanho_fila),
        " ("@,
        digitos(cfg.relay.workers_fila as nat),
        " worker(s))\n\n=== PLANO DE CARGA ===\n"@,
    );
}

proof fn lemma_dezenove_partes(
    a: Seq<char>,
    v0: Seq<char>,
    b: Seq<char>,
    v1: Seq<char>,
    c: Seq<char>,
    v2: Seq<char>,
    d: Seq<char>,
    v3: Seq<char>,
    e: Seq<char>,
    v4: Seq<char>,
    f: Seq<char>,
    v5: Seq<char>,
    g: Seq<char>,
    v6: Seq<char>,
    h: Seq<char>,
    v7: Seq<char>,
    i: Seq<char>,
    v8: Seq<char>,
    j: Seq<char>,
)
    ensures
        ({
            let s = a + v0 + b + v1 + c + v2 + d + v3 + e + v4 + f + v5 + g + v6 + h + v7 + i + v8 + j;
            &&& contem(s, a + v0 + b)
            &&& contem(s, b + v1 + c)
            &&& contem(s, c + v2 + d)
            &&& contem(s, d + v3 + e)
            &&& contem(s, e + v4 + f)
            &&& contem(s, f + v5 + g)
            &&& contem(s, g + v6 + h)
            &&& contem(s, h + v7 + i)
            &&& contem(s, i + v8 + j)
        }),
{
    let p0 = Seq::<char>::empty();
    assert(p0 + a =~= a);
    lemma_rotulado(p0, a, v0, b);
    let p1 = a + v0;
    lemma_rotulado(p1, b, v1, c);
    let p2 = p1 + b + v1;
    lemma_rotulado(p2, c, v2, d);
    let p3 = p2 + c + v2;
    lemma_rotulado(p3, d, v3, e);
    let p4 = p3 + d + v3;
    lemma_rotulado(p4, e, v4, f);
    let p5 = p4 + e + v4;
    lemma_rotulado(p5, f, v5, g);
    let p6 = p5 + f + v5;
    lemma_rotulado(p6, g, v6, h);
    let p7 = p6 + g + v6;
    lemma_rotulado(p7, h, v7, i);
    let p8 = p7 + h + v7;
    lemma_rotulado(p8, i, v8, j);
}

proof fn lemma_partes_da_apresentacao(
    cabecalho: Seq<char>,
    colunas: Seq<char>,
    linhas: Seq<char>,
    traco: Seq<char>,
    a: Seq<char>,
    b: Seq<char>,
    c: Seq<char>,
    total: Seq<char>,
    e: Seq<char>,
)
    ensures
        ({
            let s = cabecalho + colunas + linhas + traco + a + b + c + a_direita(total, 37) + e;
            contem(s, linhas) && contem(s, total)
        }),
{
    let d = a_direita(total, 37);
    let s = cabecalho + colunas + linhas + traco + a + b + c + d + e;
    lemma_partes_da_secao(cabecalho, colunas, linhas, traco, a, b, c, d, e);
    let antes = cabecalho + colunas + linhas + traco + a + b + c;
    lemma_coluna(antes, total, 37);
    lemma_cresce(antes + d, e);
}

// ---- Relatório ----

/// O relatório traz os números do resumo, e de cada receptor, gerador e origem, na ordem, os seus.
pub proof fn lei_relatorio(
    rel: Relatorio,
    cfg: Config,
    plano: Seq<GeradorPlano>,
    envios: Seq<EnvioGerador>,
    ag: Agregado,
    conf: Conferencia,
    resumo: Resumo,
)
    requires
        rel.relata(cfg, plano, envios, ag, conf, resumo),
    ensures
        rel.resumo.enviadas == resumo.enviadas,
        rel.resumo.recebidas == resumo.recebidas,
        rel.resumo.perdidas == resumo.perdidas,
        rel.resumo.perda_pct == resumo.perda_pct,
        rel.resumo.janela_s == resumo.janela_s,
        rel.resumo.vazao_msg_s == resumo.vazao,
        rel.resumo.vazao_mb_s == resumo.mb_s,
        rel.resumo.desvio_maximo_pct == resumo.desvio_maximo,
        rel.conferencia == conf,
        rel.diagnostico.descartadas_aquecimento == ag.descartadas_aquecimento,
        rel.diagnostico.linhas_invalidas == ag.linhas_invalidas,
        rel.diagnostico.anomalias_relogio == ag.anomalias_relogio,
        rel.receptores@.len() == ag.receptores@.len(),
        rel.geradores@.len() == plano.len(),
        rel.origens@.len() == ag.origens@.len(),
{
}

/// No relatório, um receptor traz o seu nome, o que recebeu e de quem, a sua fatia, o desvio da ideal, os
/// percentis das latências e a maior delas.
pub proof fn lei_receptor_no_relatorio(
    rel: Relatorio,
    cfg: Config,
    plano: Seq<GeradorPlano>,
    envios: Seq<EnvioGerador>,
    ag: Agregado,
    conf: Conferencia,
    resumo: Resumo,
    i: int,
)
    requires
        rel.relata(cfg, plano, envios, ag, conf, resumo),
        0 <= i < ag.receptores@.len(),
    ensures
        ({
            let a = rel.receptores@[i];
            let b = ag.receptores@[i];
            let m = registradas(b.latencia);
            &&& a.nome@ == b.nome@
            &&& a.recebidas == b.recebidas
            &&& a.fatia_pct == porcentagem(b.recebidas as int, resumo.recebidas)
            &&& a.desvio_pct == a.fatia_pct.diferenca(fatia_ideal(cfg.receptores.quantidade))
            &&& a.latencia_us.p50 == percentil(m, 50)
            &&& a.latencia_us.p90 == percentil(m, 90)
            &&& a.latencia_us.p99 == percentil(m, 99)
            &&& a.latencia_us.max == maximo(m)
            &&& a.por_gerador@ == b.por_gerador@
        }),
{
    let a = rel.receptores@[i];
}

/// No relatório, um gerador traz o que o plano lhe pede, o que ele enviou e o que se recebeu dele; e o
/// que se perdeu é a diferença. Sem relatório de envio, os números dele são zero.
pub proof fn lei_gerador_no_relatorio(
    rel: Relatorio,
    cfg: Config,
    plano: Seq<GeradorPlano>,
    envios: Seq<EnvioGerador>,
    ag: Agregado,
    conf: Conferencia,
    resumo: Resumo,
    i: int,
)
    requires
        rel.relata(cfg, plano, envios, ag, conf, resumo),
        0 <= i < plano.len(),
    ensures
        ({
            let a = rel.geradores@[i];
            let p = plano[i];
            &&& a.nome@ == p.nome@
            &&& a.proto@ == p.proto.escrito()
            &&& a.peso == p.peso
            &&& a.fatia_pct == p.fatia.produto(Real::do_inteiro(100))
            &&& a.taxa_alvo == p.taxa
            &&& i64::MIN <= a.enviadas - a.recebidas <= i64::MAX ==> a.perdidas == a.enviadas
                - a.recebidas
            &&& obtido(ag.recebidas_por_gerador@, p.nome@) matches Some(n) ==> a.recebidas == n
            &&& obtido(ag.recebidas_por_gerador@, p.nome@) is None ==> a.recebidas == 0
            &&& envio_de(envios, p.nome@) matches Some(e) ==> a.enviadas == e.enviadas_uteis
                && a.taxa_real == e.taxa_real && a.erros_envio == e.erros_envio
            &&& envio_de(envios, p.nome@) is None ==> a.enviadas == 0 && a.taxa_real
                == Real::do_inteiro(0) && a.erros_envio == 0
        }),
{
    let a = rel.geradores@[i];
}

/// No relatório, uma origem traz o emissor, o relay, as mensagens e a fatia delas no total.
pub proof fn lei_origem_no_relatorio(
    rel: Relatorio,
    cfg: Config,
    plano: Seq<GeradorPlano>,
    envios: Seq<EnvioGerador>,
    ag: Agregado,
    conf: Conferencia,
    resumo: Resumo,
    i: int,
)
    requires
        rel.relata(cfg, plano, envios, ag, conf, resumo),
        0 <= i < ag.origens@.len(),
    ensures
        ({
            let a = rel.origens@[i];
            let o = ag.origens@[i];
            &&& a.origem@ == o.origem@
            &&& a.relay@ == o.relay@
            &&& a.mensagens == o.mensagens
            &&& a.fatia_pct == porcentagem(o.mensagens as int, resumo.recebidas)
        }),
{
    let a = rel.origens@[i];
}

// ---- Balanceador ----

/// Cada receptor é um destino do balanceador, na porta de texto puro.
pub proof fn lei_servidores(n: nat, porta: u16, i: nat)
    requires
        1 <= i <= n,
    ensures
        contem(
            servidores(n, porta),
            "server "@ + nome_do_receptor(i) + ":"@ + digitos(porta as nat) + ";\n"@,
        ),
    decreases n,
{
    let antes = servidores((n - 1) as nat, porta);
    let linha = "        server "@ + nome_do_receptor(n) + ":"@ + digitos(porta as nat) + ";\n"@;
    if i == n {
        reveal_strlit("        server ");
        reveal_strlit("server ");
        let margem = "        server "@.take(8);
        assert("        server "@ =~= margem + "server "@);
        lemma_ao_fim(
            antes,
            margem,
            "server "@,
            nome_do_receptor(i),
            ":"@,
            digitos(porta as nat),
            ";\n"@,
        );
        lemma_linha_do_servidor(
            antes,
            margem,
            "server "@,
            nome_do_receptor(i),
            ":"@,
            digitos(porta as nat),
            ";\n"@,
        );
    } else {
        lei_servidores((n - 1) as nat, porta, i);
        lemma_contem_em(
            Seq::empty(),
            antes,
            linha,
            "server "@ + nome_do_receptor(i) + ":"@ + digitos(porta as nat) + ";\n"@,
        );
        assert(servidores(n, porta) =~= Seq::empty() + antes + linha);
    }
}

/// O balanceador reparte TCP e UDP, cada um por um grupo com todos os receptores, escolhidos pela
/// origem; e escuta nos dois na porta de entrada.
pub proof fn lei_balanceador(cfg: Config, porta: u16)
    ensures
        ({
            let s = conf_do_balanceador(cfg, porta);
            let n = cfg.receptores.quantidade as nat;
            &&& contem(
                s,
                "\n    upstream "@ + "receptores_tcp"@
                    + " {\n        hash $remote_addr$remote_port;\n"@ + servidores(n, porta)
                    + "    }\n\n"@,
            )
            &&& contem(
                s,
                "\n    upstream "@ + "receptores_udp"@
                    + " {\n        hash $remote_addr$remote_port;\n"@ + servidores(n, porta)
                    + "    }\n\n"@,
            )
            &&& contem(
                s,
                digitos(5514)
                    + ";\n        proxy_pass receptores_tcp;\n        proxy_timeout 300s;\n    }\n\n    server {\n        listen "@,
            )
            &&& contem(
                s,
                digitos(5514)
                    + " udp;\n        proxy_responses 0;\n        proxy_pass receptores_udp;\n        proxy_timeout 60s;\n    }\n}\n"@,
            )
        }),
{
    let n = cfg.receptores.quantidade as nat;
    let a =
        "# Balanceador L4 gerado pelo HugeSyslogs.\nload_module /usr/lib/nginx/modules/ngx_stream_module.so;\n\ndaemon off;\nworker_processes auto;\nerror_log /out/lb-erros.log warn;\npid /tmp/nginx.pid;\n\nevents {\n    worker_connections 8192;\n}\n\nstream {\n"@;
    let t = upstream("receptores_tcp"@, "TCP em texto puro"@, n, porta);
    let u = upstream("receptores_udp"@, "UDP em texto puro"@, n, porta);
    let b = "    server {\n        listen "@;
    let p = digitos(5514);
    let c =
        ";\n        proxy_pass receptores_tcp;\n        proxy_timeout 300s;\n    }\n\n    server {\n        listen "@;
    let d =
        " udp;\n        proxy_responses 0;\n        proxy_pass receptores_udp;\n        proxy_timeout 60s;\n    }\n}\n"@;
    lemma_upstream("receptores_tcp"@, "TCP em texto puro"@, n, porta);
    lemma_upstream("receptores_udp"@, "UDP em texto puro"@, n, porta);
    lemma_partes_do_balanceador(a, t, u, b, p, c, d);
    let x = "\n    upstream "@ + "receptores_tcp"@ + " {\n        hash $remote_addr$remote_port;\n"@
        + servidores(n, porta) + "    }\n\n"@;
    let y = "\n    upstream "@ + "receptores_udp"@ + " {\n        hash $remote_addr$remote_port;\n"@
        + servidores(n, porta) + "    }\n\n"@;
    let s = a + t + u + b + p + c + p + d;
    lemma_contem_em(a, t, s.skip((a + t).len() as int), x);
    assert(s =~= a + t + s.skip((a + t).len() as int));
    lemma_contem_em(a + t, u, s.skip((a + t + u).len() as int), y);
    assert(s =~= (a + t) + u + s.skip((a + t + u).len() as int));
    assert(s == conf_do_balanceador(cfg, porta));
}

proof fn lemma_partes_do_balanceador(
    a: Seq<char>,
    t: Seq<char>,
    u: Seq<char>,
    b: Seq<char>,
    p: Seq<char>,
    c: Seq<char>,
    d: Seq<char>,
)
    ensures
        ({
            let s = a + t + u + b + p + c + p + d;
            contem(s, p + c) && contem(s, p + d)
        }),
{
    let s = a + t + u + b + p + c + p + d;
    lemma_no_meio(a + t + u + b, p + c, p + d);
    assert(s =~= (a + t + u + b) + (p + c) + (p + d));
    lemma_no_meio(a + t + u + b + p + c, p + d, Seq::empty());
    assert(s =~= (a + t + u + b + p + c) + (p + d) + Seq::empty());
}

proof fn lemma_upstream(nome: Seq<char>, comentario: Seq<char>, n: nat, porta: u16)
    ensures
        contem(
            upstream(nome, comentario, n, porta),
            "\n    upstream "@ + nome + " {\n        hash $remote_addr$remote_port;\n"@ + servidores(
                n,
                porta,
            ) + "    }\n\n"@,
        ),
{
    lemma_ao_fim(
        "    # "@,
        comentario,
        "\n    upstream "@,
        nome,
        " {\n        hash $remote_addr$remote_port;\n"@,
        servidores(n, porta),
        "    }\n\n"@,
    );
}

proof fn lemma_ao_fim(
    x: Seq<char>,
    y: Seq<char>,
    a: Seq<char>,
    b: Seq<char>,
    c: Seq<char>,
    d: Seq<char>,
    e: Seq<char>,
)
    ensures
        contem(x + y + a + b + c + d + e, a + b + c + d + e),
{
    let p = x + y;
    let fim = a + b + c + d + e;
    assert(p + a + b =~= p + (a + b));
    assert(p + (a + b) + c =~= p + (a + b + c));
    assert(p + (a + b + c) + d =~= p + (a + b + c + d));
    assert(p + (a + b + c + d) + e =~= p + fim);
    assert(p + fim =~= p + fim + Seq::empty());
    lemma_no_meio(p, fim, Seq::empty());
}

proof fn lemma_linha_do_servidor(
    antes: Seq<char>,
    margem: Seq<char>,
    a: Seq<char>,
    b: Seq<char>,
    c: Seq<char>,
    d: Seq<char>,
    e: Seq<char>,
)
    ensures
        antes + (margem + a + b + c + d + e) == antes + margem + a + b + c + d + e,
{
    assert(antes + (margem + a + b + c + d + e) =~= antes + margem + a + b + c + d + e);
}

} // verus!
