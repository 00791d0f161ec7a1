//! Apresentação do plano de carga de uma configuração validada.

use vstd::prelude::*;
use vstd::string::*;

use crate::config::{Config, GeradorPlano};
use crate::decimal::digitos;
use crate::numerais::{escrever, escrito};
use crate::reais::Real;
use crate::relatorio::{com_milhares, dec, em_decimal, em_pct, num, pct};
use crate::texto::{
    a_direita, a_esquerda, decimal, por_a_direita, por_a_esquerda, repetido, repetir,
};

verus! {

/// A distribuição, as durações e o tamanho do teste.
pub open spec fn cabecalho_do_plano(
    caminho: Seq<char>,
    distribuicao: Seq<char>,
    cfg: Config,
) -> Seq<char> {
    "Configuração válida: "@ + caminho + "\nDistribuição: "@ + distribuicao
        + "\n\nDuração "@ + em_decimal(
        cfg.teste.duracao.segundos_reais(),
        0,
    ) + "s (aquecimento "@ + em_decimal(cfg.teste.aquecimento.segundos_reais(), 0)
        + "s, drenagem "@ + em_decimal(cfg.teste.drenagem.segundos_reais(), 0)
        + "s)\nReceptores: "@ + digitos(cfg.receptores.quantidade as nat) + "   TLS: "@
        + cfg.tls.modo.escrito() + "   Fila do relay: "@ + com_milhares(cfg.relay.tamanho_fila)
        + " ("@ + digitos(cfg.relay.workers_fila as nat)
        + " worker(s))\n\n=== PLANO DE CARGA ===\n"@
}

/// Uma linha da tabela do plano.
pub open spec fn linha_do_plano(
    nome: Seq<char>,
    proto: Seq<char>,
    peso: Seq<char>,
    fatia: Seq<char>,
    taxa: Seq<char>,
    threads: Seq<char>,
    bytes: Seq<char>,
) -> Seq<char> {
    a_esquerda(nome, 10) + " "@ + a_direita(proto, 6) + " "@ + a_direita(peso, 8) + " "@
        + a_direita(fatia, 9) + " "@ + a_direita(taxa, 12) + " "@ + a_direita(threads, 9) + " "@
        + a_direita(bytes, 9) + "\n"@
}

fn escrever_linha(
    nome: &str,
    proto: &str,
    peso: &str,
    fatia: &str,
    taxa: &str,
    threads: &str,
    bytes: &str,
) -> (t: String)
    ensures
        t@ == linha_do_plano(nome@, proto@, peso@, fatia@, taxa@, threads@, bytes@),
{
    let mut t = String::new();
    por_a_esquerda(&mut t, nome, 10);
    proof {
        assert(t@ =~= a_esquerda(nome@, 10));
    }
    t.append(" ");
    por_a_direita(&mut t, proto, 6);
    t.append(" ");
    por_a_direita(&mut t, peso, 8);
    t.append(" ");
    por_a_direita(&mut t, fatia, 9);
    t.append(" ");
    por_a_direita(&mut t, taxa, 12);
    t.append(" ");
    por_a_direita(&mut t, threads, 9);
    t.append(" ");
    por_a_direita(&mut t, bytes, 9);
    t.append("\n");
    t
}

/// A linha de um gerador do plano.
pub open spec fn linha_do_item(p: GeradorPlano) -> Seq<char> {
    linha_do_plano(
        p.nome@,
        p.proto.escrito(),
        escrito(p.peso, 0, false),
        if p.taxa_explicita {
            "fixa"@
        } else {
            em_pct(p.fatia.produto(Real::do_inteiro(100)))
        },
        com_milhares(p.taxa),
        digitos(p.threads as nat),
        digitos(p.tamanho_mensagem as nat),
    )
}

/// As linhas dos geradores do plano.
pub open spec fn linhas_do_plano(ps: Seq<GeradorPlano>) -> Seq<char>
    decreases ps.len(),
{
    if ps.len() == 0 {
        Seq::empty()
    } else {
        linhas_do_plano(ps.drop_last()) + linha_do_item(ps.last())
    }
}

/// A soma das taxas do plano.
pub open spec fn soma_das_taxas(ps: Seq<GeradorPlano>) -> int
    decreases ps.len(),
{
    if ps.len() == 0 {
        0
    } else {
        soma_das_taxas(ps.drop_last()) + ps.last().taxa
    }
}

/// O texto que apresenta o plano de carga. O total é módulo 2^64.
pub open spec fn apresentacao(
    caminho: Seq<char>,
    distribuicao: Seq<char>,
    cfg: Config,
    ps: Seq<GeradorPlano>,
) -> Seq<char> {
    cabecalho_do_plano(caminho, distribuicao, cfg) + linha_do_plano(
        "gerador"@,
        "proto"@,
        "peso"@,
        "fatia"@,
        "msgs/s"@,
        "threads"@,
        "bytes"@,
    ) + linhas_do_plano(ps) + repetido('-', 70) + "\n"@ + a_esquerda("TOTAL"@, 10) + " "@
        + a_direita(
        com_milhares((soma_das_taxas(ps) % 0x1_0000_0000_0000_0000) as u64),
        37,
    ) + "\n"@
}

fn escrever_cabecalho(caminho: &str, distribuicao: &str, cfg: &Config) -> (t: String)
    ensures
        t@ == cabecalho_do_plano(caminho@, distribuicao@, *cfg),
{
    let mut t = "Configuração válida: ".to_owned();
    t.append(caminho);
    t.append("\nDistribuição: ");
    t.append(distribuicao);
    t.append("\n\nDuração ");
    t.append(dec(cfg.teste.duracao.em_segundos(), 0).as_str());
    t.append("s (aquecimento ");
    t.append(dec(cfg.teste.aquecimento.em_segundos(), 0).as_str());
    t.append("s, drenagem ");
    t.append(dec(cfg.teste.drenagem.em_segundos(), 0).as_str());
    t.append("s)\nReceptores: ");
    t.append(decimal(cfg.receptores.quantidade as u128).as_str());
    t.append("   TLS: ");
    t.append(cfg.tls.modo.texto());
    t.append("   Fila do relay: ");
    t.append(num(cfg.relay.tamanho_fila).as_str());
    t.append(" (");
    t.append(decimal(cfg.relay.workers_fila as u128).as_str());
    t.append(" worker(s))\n\n=== PLANO DE CARGA ===\n");
    t
}

fn escrever_item(p: &GeradorPlano) -> (t: String)
    ensures
        t@ == linha_do_item(*p),
{
    let fatia = if p.taxa_explicita {
        "fixa".to_owned()
    } else {
        pct(p.fatia.multiplicar(Real::de_u64(100)))
    };
    escrever_linha(
        p.nome.as_str(),
        p.proto.texto(),
        escrever(p.peso, 0, false).as_str(),
        fatia.as_str(),
        num(p.taxa).as_str(),
        decimal(p.threads as u128).as_str(),
        decimal(p.tamanho_mensagem as u128).as_str(),
    )
}

/// Apresenta o plano de carga de uma configuração.
///
/// `distribuicao` diz como as mensagens chegam aos receptores.
pub fn apresentar(caminho: &str, distribuicao: &str, cfg: &Config, ps: &Vec<GeradorPlano>) -> (t:
    String)
    ensures
        t@ == apresentacao(caminho@, distribuicao@, *cfg, ps@),
{
    let mut linhas = String::new();
    let mut total: u64 = 0;
    let mut i: usize = 0;
    proof {
        assert(linhas@ =~= Seq::<char>::empty());
    }
    while i < ps.len()
        invariant
            i <= ps@.len(),
            linhas@ == linhas_do_plano(ps@.take(i as int)),
            total == soma_das_taxas(ps@.take(i as int)) % 0x1_0000_0000_0000_0000,
        decreases ps@.len() - i,
    {
        proof {
            assert(ps@.take(i + 1).drop_last() =~= ps@.take(i as int));
        }
        linhas.append(escrever_item(&ps[i]).as_str());
        total = total.wrapping_add(ps[i].taxa);
        i = i + 1;
    }
    proof {
        assert(ps@.take(ps@.len() as int) =~= ps@);
    }
    let mut t = escrever_cabecalho(caminho, distribuicao, cfg);
    let titulos = escrever_linha("gerador", "proto", "peso", "fatia", "msgs/s", "threads", "bytes");
    t.append(titulos.as_str());
    t.append(linhas.as_str());
    t.append(repetir('-', 70).as_str());
    t.append("\n");
    por_a_esquerda(&mut t, "TOTAL", 10);
    t.append(" ");
    por_a_direita(&mut t, num(total).as_str(), 37);
    t.append("\n");
    t
}

} // verus!
